//! The encoding of statuses and failures, written and read back.

use crate::base_types::{AccountAddress, ObjectID, SuiAddress};
use crate::codec::{variant_tag, write_tag, Encode};
use crate::execution_status::{
    CircularObjectOwnership, DeleteKind, EntryArgumentError, EntryArgumentErrorKind,
    ExecutionFailureStatus, ExecutionStatus, InvalidSharedByValue, InvalidSharedChildUse,
    MissingObjectOwner,
};
use crate::framing::{lemma_cancel_tail, lemma_regroup, lemma_same_length_split};
use crate::move_types::{Identifier, ModuleId};
use crate::reading::{lemma_join, lemma_skip_splits, read_tag, Decode};
use crate::wire_laws::lemma_tag_split;
use vstd::prelude::*;

verus! {

impl Encode for u8 {
    open spec fn encoding(&self) -> Seq<u8> {
        seq![*self]
    }

    fn encode(&self, out: &mut Vec<u8>) {
        assert(self.encoding() == seq![*self]);
        out.push(*self);
        assert(out@ =~= old(out)@ + seq![*self]);
    }
}

impl Decode for u8 {
    open spec fn is_readable(&self) -> bool {
        true
    }

    proof fn lemma_split(a: Self, b: Self, ra: Seq<u8>, rb: Seq<u8>) {
        assert(a.encoding() == seq![a] && b.encoding() == seq![b]);
        lemma_same_length_split(a.encoding(), b.encoding(), ra, rb);
    }

    fn decode(bytes: &[u8], pos: usize) -> (r: Option<(Self, usize)>) {
        match read_tag(bytes, pos) {
            Some((v, next)) => {
                proof {
                    assert(v.encoding() == seq![v]);
                    assert(bytes@.subrange(pos as int, next as int) =~= seq![v]);
                    assert(v.is_readable());
                }
                Some((v, next))
            },
            None => {
                assert forall|w: u8, tail: Seq<u8>| bytes@.skip(pos as int)
                    != #[trigger] (w.encoding() + tail) by {
                    assert(w.encoding() == seq![w]);
                    assert(bytes@.skip(pos as int).len() == 0);
                    assert((w.encoding() + tail).len() > 0);
                }
                None
            },
        }
    }
}

/// What an abort of Move code carries: the module and the code.
pub struct MoveAbortData {
    pub module: ModuleId,
    pub code: u64,
}

/// The index of the variant of `w`.
pub open spec fn entry_kind_index(w: EntryArgumentErrorKind) -> u8 {
    match w {
        EntryArgumentErrorKind::TypeMismatch => 0,
        EntryArgumentErrorKind::InvalidObjectByValue => 1,
        EntryArgumentErrorKind::InvalidObjectByMuteRef => 2,
        EntryArgumentErrorKind::ObjectKindMismatch => 3,
        EntryArgumentErrorKind::UnsupportedPureArg => 4,
        EntryArgumentErrorKind::ArityMismatch => 5,
    }
}

/// The encoding of what the variant of `w` carries.
pub open spec fn entry_kind_payload(w: EntryArgumentErrorKind) -> Seq<u8> {
    match w {
        EntryArgumentErrorKind::TypeMismatch => Seq::empty(),
        EntryArgumentErrorKind::InvalidObjectByValue => Seq::empty(),
        EntryArgumentErrorKind::InvalidObjectByMuteRef => Seq::empty(),
        EntryArgumentErrorKind::ObjectKindMismatch => Seq::empty(),
        EntryArgumentErrorKind::UnsupportedPureArg => Seq::empty(),
        EntryArgumentErrorKind::ArityMismatch => Seq::empty(),
    }
}

impl Encode for EntryArgumentErrorKind {
    open spec fn encoding(&self) -> Seq<u8> {
        variant_tag(entry_kind_index(*self)) + entry_kind_payload(*self)
    }

    fn encode(&self, out: &mut Vec<u8>) {
        assert(self.encoding() == variant_tag(entry_kind_index(*self)) + entry_kind_payload(*self));
        let ghost start = out@;
        match self {
            EntryArgumentErrorKind::TypeMismatch => {
                write_tag(out, 0);
            },
            EntryArgumentErrorKind::InvalidObjectByValue => {
                write_tag(out, 1);
            },
            EntryArgumentErrorKind::InvalidObjectByMuteRef => {
                write_tag(out, 2);
            },
            EntryArgumentErrorKind::ObjectKindMismatch => {
                write_tag(out, 3);
            },
            EntryArgumentErrorKind::UnsupportedPureArg => {
                write_tag(out, 4);
            },
            EntryArgumentErrorKind::ArityMismatch => {
                write_tag(out, 5);
            },
        }
        assert(out@ =~= start + (variant_tag(entry_kind_index(*self)) + entry_kind_payload(*self)));
    }
}

impl Decode for EntryArgumentErrorKind {
    open spec fn is_readable(&self) -> bool {
        true
    }

    proof fn lemma_split(a: Self, b: Self, ra: Seq<u8>, rb: Seq<u8>) {
        assert(a.encoding() == variant_tag(entry_kind_index(a)) + entry_kind_payload(a));
        assert(b.encoding() == variant_tag(entry_kind_index(b)) + entry_kind_payload(b));
        lemma_regroup(variant_tag(entry_kind_index(a)), entry_kind_payload(a), ra);
        lemma_regroup(variant_tag(entry_kind_index(b)), entry_kind_payload(b), rb);
        lemma_tag_split(entry_kind_index(a), entry_kind_index(b), entry_kind_payload(a) + ra,
            entry_kind_payload(b) + rb);
        match (a, b) {
            _ => {
                lemma_same_length_split(entry_kind_payload(a), entry_kind_payload(b), ra, rb);
            },
        }
        lemma_cancel_tail(a.encoding(), b.encoding(), ra);
    }

    fn decode(bytes: &[u8], pos: usize) -> (r: Option<(Self, usize)>) {
        let ghost at = bytes@.skip(pos as int);
        let (tag, at1) = match read_tag(bytes, pos) {
            Some(found) => found,
            None => {
                assert forall|w: Self, tail: Seq<u8>| at != #[trigger] (w.encoding() + tail) by {
                    assert(w.encoding() == variant_tag(entry_kind_index(w))
                        + entry_kind_payload(w));
                    assert(at.len() == 0);
                    assert((w.encoding() + tail).len() > 0);
                }
                return None;
            },
        };
        proof {
            lemma_skip_splits(bytes@, pos as int, at1 as int);
            assert(bytes@.subrange(pos as int, at1 as int) =~= variant_tag(tag));
            assert forall|w: Self, tail: Seq<u8>| at == #[trigger] (w.encoding() + tail)
                implies entry_kind_index(w) == tag
                    && bytes@.skip(at1 as int) == entry_kind_payload(w) + tail by {
                assert(w.encoding() == variant_tag(entry_kind_index(w)) + entry_kind_payload(w));
                lemma_regroup(variant_tag(entry_kind_index(w)), entry_kind_payload(w), tail);
                lemma_tag_split(tag, entry_kind_index(w), bytes@.skip(at1 as int),
                    entry_kind_payload(w) + tail);
            }
        }
        if tag == 0 {
            let v = EntryArgumentErrorKind::TypeMismatch;
            proof {
                assert(v.encoding() =~= variant_tag(0));
                assert(v.is_readable());
            }
            Some((v, at1))
        } else if tag == 1 {
            let v = EntryArgumentErrorKind::InvalidObjectByValue;
            proof {
                assert(v.encoding() =~= variant_tag(1));
                assert(v.is_readable());
            }
            Some((v, at1))
        } else if tag == 2 {
            let v = EntryArgumentErrorKind::InvalidObjectByMuteRef;
            proof {
                assert(v.encoding() =~= variant_tag(2));
                assert(v.is_readable());
            }
            Some((v, at1))
        } else if tag == 3 {
            let v = EntryArgumentErrorKind::ObjectKindMismatch;
            proof {
                assert(v.encoding() =~= variant_tag(3));
                assert(v.is_readable());
            }
            Some((v, at1))
        } else if tag == 4 {
            let v = EntryArgumentErrorKind::UnsupportedPureArg;
            proof {
                assert(v.encoding() =~= variant_tag(4));
                assert(v.is_readable());
            }
            Some((v, at1))
        } else if tag == 5 {
            let v = EntryArgumentErrorKind::ArityMismatch;
            proof {
                assert(v.encoding() =~= variant_tag(5));
                assert(v.is_readable());
            }
            Some((v, at1))
        } else {
            None
        }
    }
}

/// The index of the variant of `w`.
pub open spec fn delete_kind_index(w: DeleteKind) -> u8 {
    match w {
        DeleteKind::Normal => 0,
        DeleteKind::UnwrapThenDelete => 1,
        DeleteKind::Wrap => 2,
    }
}

/// The encoding of what the variant of `w` carries.
pub open spec fn delete_kind_payload(w: DeleteKind) -> Seq<u8> {
    match w {
        DeleteKind::Normal => Seq::empty(),
        DeleteKind::UnwrapThenDelete => Seq::empty(),
        DeleteKind::Wrap => Seq::empty(),
    }
}

impl Encode for DeleteKind {
    open spec fn encoding(&self) -> Seq<u8> {
        variant_tag(delete_kind_index(*self)) + delete_kind_payload(*self)
    }

    fn encode(&self, out: &mut Vec<u8>) {
        assert(self.encoding() == variant_tag(delete_kind_index(*self))
            + delete_kind_payload(*self));
        let ghost start = out@;
        match self {
            DeleteKind::Normal => {
                write_tag(out, 0);
            },
            DeleteKind::UnwrapThenDelete => {
                write_tag(out, 1);
            },
            DeleteKind::Wrap => {
                write_tag(out, 2);
            },
        }
        assert(out@ =~= start
            + (variant_tag(delete_kind_index(*self)) + delete_kind_payload(*self)));
    }
}

impl Decode for DeleteKind {
    open spec fn is_readable(&self) -> bool {
        true
    }

    proof fn lemma_split(a: Self, b: Self, ra: Seq<u8>, rb: Seq<u8>) {
        assert(a.encoding() == variant_tag(delete_kind_index(a)) + delete_kind_payload(a));
        assert(b.encoding() == variant_tag(delete_kind_index(b)) + delete_kind_payload(b));
        lemma_regroup(variant_tag(delete_kind_index(a)), delete_kind_payload(a), ra);
        lemma_regroup(variant_tag(delete_kind_index(b)), delete_kind_payload(b), rb);
        lemma_tag_split(delete_kind_index(a), delete_kind_index(b), delete_kind_payload(a) + ra,
            delete_kind_payload(b) + rb);
        match (a, b) {
            _ => {
                lemma_same_length_split(delete_kind_payload(a), delete_kind_payload(b), ra, rb);
            },
        }
        lemma_cancel_tail(a.encoding(), b.encoding(), ra);
    }

    fn decode(bytes: &[u8], pos: usize) -> (r: Option<(Self, usize)>) {
        let ghost at = bytes@.skip(pos as int);
        let (tag, at1) = match read_tag(bytes, pos) {
            Some(found) => found,
            None => {
                assert forall|w: Self, tail: Seq<u8>| at != #[trigger] (w.encoding() + tail) by {
                    assert(w.encoding() == variant_tag(delete_kind_index(w))
                        + delete_kind_payload(w));
                    assert(at.len() == 0);
                    assert((w.encoding() + tail).len() > 0);
                }
                return None;
            },
        };
        proof {
            lemma_skip_splits(bytes@, pos as int, at1 as int);
            assert(bytes@.subrange(pos as int, at1 as int) =~= variant_tag(tag));
            assert forall|w: Self, tail: Seq<u8>| at == #[trigger] (w.encoding() + tail)
                implies delete_kind_index(w) == tag
                    && bytes@.skip(at1 as int) == delete_kind_payload(w) + tail by {
                assert(w.encoding() == variant_tag(delete_kind_index(w)) + delete_kind_payload(w));
                lemma_regroup(variant_tag(delete_kind_index(w)), delete_kind_payload(w), tail);
                lemma_tag_split(tag, delete_kind_index(w), bytes@.skip(at1 as int),
                    delete_kind_payload(w) + tail);
            }
        }
        if tag == 0 {
            let v = DeleteKind::Normal;
            proof {
                assert(v.encoding() =~= variant_tag(0));
                assert(v.is_readable());
            }
            Some((v, at1))
        } else if tag == 1 {
            let v = DeleteKind::UnwrapThenDelete;
            proof {
                assert(v.encoding() =~= variant_tag(1));
                assert(v.is_readable());
            }
            Some((v, at1))
        } else if tag == 2 {
            let v = DeleteKind::Wrap;
            proof {
                assert(v.encoding() =~= variant_tag(2));
                assert(v.is_readable());
            }
            Some((v, at1))
        } else {
            None
        }
    }
}

/// The index of the variant of `w`.
pub open spec fn deletion_index(w: Option<DeleteKind>) -> u8 {
    match w {
        Option::None => 0,
        Option::Some(_) => 1,
    }
}

/// The encoding of what the variant of `w` carries.
pub open spec fn deletion_payload(w: Option<DeleteKind>) -> Seq<u8> {
    match w {
        Option::None => Seq::empty(),
        Option::Some(inner) => inner.encoding(),
    }
}

impl Encode for Option<DeleteKind> {
    open spec fn encoding(&self) -> Seq<u8> {
        variant_tag(deletion_index(*self)) + deletion_payload(*self)
    }

    fn encode(&self, out: &mut Vec<u8>) {
        assert(self.encoding() == variant_tag(deletion_index(*self)) + deletion_payload(*self));
        let ghost start = out@;
        match self {
            Option::None => {
                write_tag(out, 0);
            },
            Option::Some(x) => {
                write_tag(out, 1);
                x.encode(out);
                assert((*x).encoding() == x.encoding());
            },
        }
        assert(out@ =~= start + (variant_tag(deletion_index(*self)) + deletion_payload(*self)));
    }
}

impl Decode for Option<DeleteKind> {
    open spec fn is_readable(&self) -> bool {
        true
    }

    proof fn lemma_split(a: Self, b: Self, ra: Seq<u8>, rb: Seq<u8>) {
        assert(a.encoding() == variant_tag(deletion_index(a)) + deletion_payload(a));
        assert(b.encoding() == variant_tag(deletion_index(b)) + deletion_payload(b));
        lemma_regroup(variant_tag(deletion_index(a)), deletion_payload(a), ra);
        lemma_regroup(variant_tag(deletion_index(b)), deletion_payload(b), rb);
        lemma_tag_split(deletion_index(a), deletion_index(b), deletion_payload(a) + ra,
            deletion_payload(b) + rb);
        match (a, b) {
            (Option::Some(x_v), Option::Some(y_v)) => {
                DeleteKind::lemma_split(x_v, y_v, ra, rb);
            },
            _ => {
                lemma_same_length_split(deletion_payload(a), deletion_payload(b), ra, rb);
            },
        }
        lemma_cancel_tail(a.encoding(), b.encoding(), ra);
    }

    fn decode(bytes: &[u8], pos: usize) -> (r: Option<(Self, usize)>) {
        let ghost at = bytes@.skip(pos as int);
        let (tag, at1) = match read_tag(bytes, pos) {
            Some(found) => found,
            None => {
                assert forall|w: Self, tail: Seq<u8>| at != #[trigger] (w.encoding() + tail) by {
                    assert(w.encoding() == variant_tag(deletion_index(w)) + deletion_payload(w));
                    assert(at.len() == 0);
                    assert((w.encoding() + tail).len() > 0);
                }
                return None;
            },
        };
        proof {
            lemma_skip_splits(bytes@, pos as int, at1 as int);
            assert(bytes@.subrange(pos as int, at1 as int) =~= variant_tag(tag));
            assert forall|w: Self, tail: Seq<u8>| at == #[trigger] (w.encoding() + tail)
                implies deletion_index(w) == tag
                    && bytes@.skip(at1 as int) == deletion_payload(w) + tail by {
                assert(w.encoding() == variant_tag(deletion_index(w)) + deletion_payload(w));
                lemma_regroup(variant_tag(deletion_index(w)), deletion_payload(w), tail);
                lemma_tag_split(tag, deletion_index(w), bytes@.skip(at1 as int),
                    deletion_payload(w) + tail);
            }
        }
        if tag == 0 {
            let v = Option::None;
            proof {
                assert(v.encoding() =~= variant_tag(0));
                assert(v.is_readable());
            }
            Some((v, at1))
        } else if tag == 1 {
            match DeleteKind::decode(bytes, at1) {
                Some((x, at2)) => {
                    let ghost held = x.encoding();
                    let v = Option::Some(x);
                    proof {
                        lemma_join(bytes@, pos as int, at1 as int, at2 as int);
                        assert(deletion_payload(v) == held);
                        assert(v.encoding() == variant_tag(1) + held);
                        assert(v.is_readable());
                    }
                    Some((v, at2))
                },
                None => {
                    assert forall|w: Self, tail: Seq<u8>| w.is_readable()
                        implies at != #[trigger] (w.encoding() + tail) by {
                        if at == w.encoding() + tail {
                            let x = w->Some_0;
                            assert(x.is_readable());
                            assert(bytes@.skip(at1 as int) == x.encoding() + tail);
                        }
                    }
                    None
                },
            }
        } else {
            None
        }
    }
}

/// The encoding of a value of this type, followed by anything, is its parts one
/// after the other, followed by the same.
pub proof fn lemma_parts_of_deleted_parent(w: (ObjectID, Option<DeleteKind>), tail: Seq<u8>)
    ensures
        w.encoding() == w.0.encoding() + (w.1.encoding()),
        w.encoding() + tail == w.0.encoding() + (w.1.encoding() + tail),
{
    lemma_regroup(w.0.encoding(), w.1.encoding(), tail);
}

impl Encode for (ObjectID, Option<DeleteKind>) {
    open spec fn encoding(&self) -> Seq<u8> {
        self.0.encoding() + (self.1.encoding())
    }

    fn encode(&self, out: &mut Vec<u8>) {
        assert(self.encoding() == self.0.encoding() + (self.1.encoding()));
        let ghost s0 = out@;
        self.0.encode(out);
        self.1.encode(out);
        proof {
            lemma_regroup(s0, self.0.encoding(), self.1.encoding());
        }
    }
}

impl Decode for (ObjectID, Option<DeleteKind>) {
    open spec fn is_readable(&self) -> bool {
        true
    }

    proof fn lemma_split(a: Self, b: Self, ra: Seq<u8>, rb: Seq<u8>) {
        lemma_parts_of_deleted_parent(a, ra);
        lemma_parts_of_deleted_parent(b, rb);
        ObjectID::lemma_split(a.0, b.0, a.1.encoding() + ra, b.1.encoding() + rb);
        <Option<DeleteKind>>::lemma_split(a.1, b.1, ra, rb);
        lemma_cancel_tail(a.encoding(), b.encoding(), ra);
    }

    fn decode(bytes: &[u8], pos: usize) -> (r: Option<(Self, usize)>) {
        let ghost at = bytes@.skip(pos as int);
        let (x1, at1) = match ObjectID::decode(bytes, pos) {
            Some(found) => found,
            None => {
                assert forall|w: Self, tail: Seq<u8>| w.is_readable()
                    implies at != #[trigger] (w.encoding() + tail) by {
                    if at == w.encoding() + tail {
                        lemma_parts_of_deleted_parent(w, tail);
                        assert(w.0.is_readable());
                    }
                }
                return None;
            },
        };
        proof {
            lemma_skip_splits(bytes@, pos as int, at1 as int);
            assert forall|w: Self, tail: Seq<u8>| at == #[trigger] (w.encoding() + tail)
                implies bytes@.skip(at1 as int) == w.1.encoding() + tail by {
                lemma_parts_of_deleted_parent(w, tail);
                ObjectID::lemma_split(x1, w.0, bytes@.skip(at1 as int), w.1.encoding() + tail);
            }
        }
        let (x2, at2) = match <Option<DeleteKind>>::decode(bytes, at1) {
            Some(found) => found,
            None => {
                assert forall|w: Self, tail: Seq<u8>| w.is_readable()
                    implies at != #[trigger] (w.encoding() + tail) by {
                    if at == w.encoding() + tail {
                        assert(bytes@.skip(at1 as int) == w.1.encoding() + tail);
                        assert(w.1.is_readable());
                    }
                }
                return None;
            },
        };
        proof {
            lemma_skip_splits(bytes@, at1 as int, at2 as int);
        }
        let v = (x1, x2);
        proof {
            lemma_parts_of_deleted_parent(v, Seq::empty());
            lemma_join(bytes@, pos as int, at1 as int, at2 as int);
            assert(v.is_readable());
        }
        Some((v, at2))
    }
}

/// The encoding of a value of this type, followed by anything, is its parts one
/// after the other, followed by the same.
pub proof fn lemma_parts_of_entry_argument_error(w: EntryArgumentError, tail: Seq<u8>)
    ensures
        w.encoding() == w.argument_idx.encoding() + (w.kind.encoding()),
        w.encoding() + tail == w.argument_idx.encoding() + (w.kind.encoding() + tail),
{
    lemma_regroup(w.argument_idx.encoding(), w.kind.encoding(), tail);
}

impl Encode for EntryArgumentError {
    open spec fn encoding(&self) -> Seq<u8> {
        self.argument_idx.encoding() + (self.kind.encoding())
    }

    fn encode(&self, out: &mut Vec<u8>) {
        assert(self.encoding() == self.argument_idx.encoding() + (self.kind.encoding()));
        let ghost s0 = out@;
        self.argument_idx.encode(out);
        self.kind.encode(out);
        proof {
            lemma_regroup(s0, self.argument_idx.encoding(), self.kind.encoding());
        }
    }
}

impl Decode for EntryArgumentError {
    open spec fn is_readable(&self) -> bool {
        true
    }

    proof fn lemma_split(a: Self, b: Self, ra: Seq<u8>, rb: Seq<u8>) {
        lemma_parts_of_entry_argument_error(a, ra);
        lemma_parts_of_entry_argument_error(b, rb);
        u8::lemma_split(a.argument_idx, b.argument_idx, a.kind.encoding() + ra,
            b.kind.encoding() + rb);
        EntryArgumentErrorKind::lemma_split(a.kind, b.kind, ra, rb);
        lemma_cancel_tail(a.encoding(), b.encoding(), ra);
    }

    fn decode(bytes: &[u8], pos: usize) -> (r: Option<(Self, usize)>) {
        let ghost at = bytes@.skip(pos as int);
        let (x1, at1) = match u8::decode(bytes, pos) {
            Some(found) => found,
            None => {
                assert forall|w: Self, tail: Seq<u8>| w.is_readable()
                    implies at != #[trigger] (w.encoding() + tail) by {
                    if at == w.encoding() + tail {
                        lemma_parts_of_entry_argument_error(w, tail);
                        assert(w.argument_idx.is_readable());
                    }
                }
                return None;
            },
        };
        proof {
            lemma_skip_splits(bytes@, pos as int, at1 as int);
            assert forall|w: Self, tail: Seq<u8>| at == #[trigger] (w.encoding() + tail)
                implies bytes@.skip(at1 as int) == w.kind.encoding() + tail by {
                lemma_parts_of_entry_argument_error(w, tail);
                u8::lemma_split(x1, w.argument_idx, bytes@.skip(at1 as int), w.kind.encoding()
                    + tail);
            }
        }
        let (x2, at2) = match EntryArgumentErrorKind::decode(bytes, at1) {
            Some(found) => found,
            None => {
                assert forall|w: Self, tail: Seq<u8>| w.is_readable()
                    implies at != #[trigger] (w.encoding() + tail) by {
                    if at == w.encoding() + tail {
                        assert(bytes@.skip(at1 as int) == w.kind.encoding() + tail);
                        assert(w.kind.is_readable());
                    }
                }
                return None;
            },
        };
        proof {
            lemma_skip_splits(bytes@, at1 as int, at2 as int);
        }
        let v = EntryArgumentError { argument_idx: x1, kind: x2 };
        proof {
            lemma_parts_of_entry_argument_error(v, Seq::empty());
            lemma_join(bytes@, pos as int, at1 as int, at2 as int);
            assert(v.is_readable());
        }
        Some((v, at2))
    }
}

/// The encoding of a value of this type, followed by anything, is its parts one
/// after the other, followed by the same.
pub proof fn lemma_parts_of_circular_ownership(w: CircularObjectOwnership, tail: Seq<u8>)
    ensures
        w.encoding() == w.object.encoding(),
        w.encoding() + tail == w.object.encoding() + tail,
{
}

impl Encode for CircularObjectOwnership {
    open spec fn encoding(&self) -> Seq<u8> {
        self.object.encoding()
    }

    fn encode(&self, out: &mut Vec<u8>) {
        assert(self.encoding() == self.object.encoding());
        self.object.encode(out);
    }
}

impl Decode for CircularObjectOwnership {
    open spec fn is_readable(&self) -> bool {
        true
    }

    proof fn lemma_split(a: Self, b: Self, ra: Seq<u8>, rb: Seq<u8>) {
        lemma_parts_of_circular_ownership(a, ra);
        lemma_parts_of_circular_ownership(b, rb);
        ObjectID::lemma_split(a.object, b.object, ra, rb);
        lemma_cancel_tail(a.encoding(), b.encoding(), ra);
    }

    fn decode(bytes: &[u8], pos: usize) -> (r: Option<(Self, usize)>) {
        let ghost at = bytes@.skip(pos as int);
        let (x1, at1) = match ObjectID::decode(bytes, pos) {
            Some(found) => found,
            None => {
                assert forall|w: Self, tail: Seq<u8>| w.is_readable()
                    implies at != #[trigger] (w.encoding() + tail) by {
                    if at == w.encoding() + tail {
                        lemma_parts_of_circular_ownership(w, tail);
                        assert(w.object.is_readable());
                    }
                }
                return None;
            },
        };
        proof {
            lemma_skip_splits(bytes@, pos as int, at1 as int);
        }
        let v = CircularObjectOwnership { object: x1 };
        proof {
            lemma_parts_of_circular_ownership(v, Seq::empty());
            assert(v.is_readable());
        }
        Some((v, at1))
    }
}

/// The encoding of a value of this type, followed by anything, is its parts one
/// after the other, followed by the same.
pub proof fn lemma_parts_of_missing_owner(w: MissingObjectOwner, tail: Seq<u8>)
    ensures
        w.encoding() == w.child.encoding() + (w.parent.encoding()),
        w.encoding() + tail == w.child.encoding() + (w.parent.encoding() + tail),
{
    lemma_regroup(w.child.encoding(), w.parent.encoding(), tail);
}

impl Encode for MissingObjectOwner {
    open spec fn encoding(&self) -> Seq<u8> {
        self.child.encoding() + (self.parent.encoding())
    }

    fn encode(&self, out: &mut Vec<u8>) {
        assert(self.encoding() == self.child.encoding() + (self.parent.encoding()));
        let ghost s0 = out@;
        self.child.encode(out);
        self.parent.encode(out);
        proof {
            lemma_regroup(s0, self.child.encoding(), self.parent.encoding());
        }
    }
}

impl Decode for MissingObjectOwner {
    open spec fn is_readable(&self) -> bool {
        true
    }

    proof fn lemma_split(a: Self, b: Self, ra: Seq<u8>, rb: Seq<u8>) {
        lemma_parts_of_missing_owner(a, ra);
        lemma_parts_of_missing_owner(b, rb);
        ObjectID::lemma_split(a.child, b.child, a.parent.encoding() + ra, b.parent.encoding()
            + rb);
        SuiAddress::lemma_split(a.parent, b.parent, ra, rb);
        lemma_cancel_tail(a.encoding(), b.encoding(), ra);
    }

    fn decode(bytes: &[u8], pos: usize) -> (r: Option<(Self, usize)>) {
        let ghost at = bytes@.skip(pos as int);
        let (x1, at1) = match ObjectID::decode(bytes, pos) {
            Some(found) => found,
            None => {
                assert forall|w: Self, tail: Seq<u8>| w.is_readable()
                    implies at != #[trigger] (w.encoding() + tail) by {
                    if at == w.encoding() + tail {
                        lemma_parts_of_missing_owner(w, tail);
                        assert(w.child.is_readable());
                    }
                }
                return None;
            },
        };
        proof {
            lemma_skip_splits(bytes@, pos as int, at1 as int);
            assert forall|w: Self, tail: Seq<u8>| at == #[trigger] (w.encoding() + tail)
                implies bytes@.skip(at1 as int) == w.parent.encoding() + tail by {
                lemma_parts_of_missing_owner(w, tail);
                ObjectID::lemma_split(x1, w.child, bytes@.skip(at1 as int), w.parent.encoding()
                    + tail);
            }
        }
        let (x2, at2) = match SuiAddress::decode(bytes, at1) {
            Some(found) => found,
            None => {
                assert forall|w: Self, tail: Seq<u8>| w.is_readable()
                    implies at != #[trigger] (w.encoding() + tail) by {
                    if at == w.encoding() + tail {
                        assert(bytes@.skip(at1 as int) == w.parent.encoding() + tail);
                        assert(w.parent.is_readable());
                    }
                }
                return None;
            },
        };
        proof {
            lemma_skip_splits(bytes@, at1 as int, at2 as int);
        }
        let v = MissingObjectOwner { child: x1, parent: x2 };
        proof {
            lemma_parts_of_missing_owner(v, Seq::empty());
            lemma_join(bytes@, pos as int, at1 as int, at2 as int);
            assert(v.is_readable());
        }
        Some((v, at2))
    }
}

/// The encoding of a value of this type, followed by anything, is its parts one
/// after the other, followed by the same.
pub proof fn lemma_parts_of_shared_child_use(w: InvalidSharedChildUse, tail: Seq<u8>)
    ensures
        w.encoding() == w.child.encoding() + (w.ancestor.encoding()),
        w.encoding() + tail == w.child.encoding() + (w.ancestor.encoding() + tail),
{
    lemma_regroup(w.child.encoding(), w.ancestor.encoding(), tail);
}

impl Encode for InvalidSharedChildUse {
    open spec fn encoding(&self) -> Seq<u8> {
        self.child.encoding() + (self.ancestor.encoding())
    }

    fn encode(&self, out: &mut Vec<u8>) {
        assert(self.encoding() == self.child.encoding() + (self.ancestor.encoding()));
        let ghost s0 = out@;
        self.child.encode(out);
        self.ancestor.encode(out);
        proof {
            lemma_regroup(s0, self.child.encoding(), self.ancestor.encoding());
        }
    }
}

impl Decode for InvalidSharedChildUse {
    open spec fn is_readable(&self) -> bool {
        true
    }

    proof fn lemma_split(a: Self, b: Self, ra: Seq<u8>, rb: Seq<u8>) {
        lemma_parts_of_shared_child_use(a, ra);
        lemma_parts_of_shared_child_use(b, rb);
        ObjectID::lemma_split(a.child, b.child, a.ancestor.encoding() + ra,
            b.ancestor.encoding() + rb);
        ObjectID::lemma_split(a.ancestor, b.ancestor, ra, rb);
        lemma_cancel_tail(a.encoding(), b.encoding(), ra);
    }

    fn decode(bytes: &[u8], pos: usize) -> (r: Option<(Self, usize)>) {
        let ghost at = bytes@.skip(pos as int);
        let (x1, at1) = match ObjectID::decode(bytes, pos) {
            Some(found) => found,
            None => {
                assert forall|w: Self, tail: Seq<u8>| w.is_readable()
                    implies at != #[trigger] (w.encoding() + tail) by {
                    if at == w.encoding() + tail {
                        lemma_parts_of_shared_child_use(w, tail);
                        assert(w.child.is_readable());
                    }
                }
                return None;
            },
        };
        proof {
            lemma_skip_splits(bytes@, pos as int, at1 as int);
            assert forall|w: Self, tail: Seq<u8>| at == #[trigger] (w.encoding() + tail)
                implies bytes@.skip(at1 as int) == w.ancestor.encoding() + tail by {
                lemma_parts_of_shared_child_use(w, tail);
                ObjectID::lemma_split(x1, w.child, bytes@.skip(at1 as int), w.ancestor.encoding()
                    + tail);
            }
        }
        let (x2, at2) = match ObjectID::decode(bytes, at1) {
            Some(found) => found,
            None => {
                assert forall|w: Self, tail: Seq<u8>| w.is_readable()
                    implies at != #[trigger] (w.encoding() + tail) by {
                    if at == w.encoding() + tail {
                        assert(bytes@.skip(at1 as int) == w.ancestor.encoding() + tail);
                        assert(w.ancestor.is_readable());
                    }
                }
                return None;
            },
        };
        proof {
            lemma_skip_splits(bytes@, at1 as int, at2 as int);
        }
        let v = InvalidSharedChildUse { child: x1, ancestor: x2 };
        proof {
            lemma_parts_of_shared_child_use(v, Seq::empty());
            lemma_join(bytes@, pos as int, at1 as int, at2 as int);
            assert(v.is_readable());
        }
        Some((v, at2))
    }
}

/// The encoding of a value of this type, followed by anything, is its parts one
/// after the other, followed by the same.
pub proof fn lemma_parts_of_shared_by_value(w: InvalidSharedByValue, tail: Seq<u8>)
    ensures
        w.encoding() == w.object.encoding(),
        w.encoding() + tail == w.object.encoding() + tail,
{
}

impl Encode for InvalidSharedByValue {
    open spec fn encoding(&self) -> Seq<u8> {
        self.object.encoding()
    }

    fn encode(&self, out: &mut Vec<u8>) {
        assert(self.encoding() == self.object.encoding());
        self.object.encode(out);
    }
}

impl Decode for InvalidSharedByValue {
    open spec fn is_readable(&self) -> bool {
        true
    }

    proof fn lemma_split(a: Self, b: Self, ra: Seq<u8>, rb: Seq<u8>) {
        lemma_parts_of_shared_by_value(a, ra);
        lemma_parts_of_shared_by_value(b, rb);
        ObjectID::lemma_split(a.object, b.object, ra, rb);
        lemma_cancel_tail(a.encoding(), b.encoding(), ra);
    }

    fn decode(bytes: &[u8], pos: usize) -> (r: Option<(Self, usize)>) {
        let ghost at = bytes@.skip(pos as int);
        let (x1, at1) = match ObjectID::decode(bytes, pos) {
            Some(found) => found,
            None => {
                assert forall|w: Self, tail: Seq<u8>| w.is_readable()
                    implies at != #[trigger] (w.encoding() + tail) by {
                    if at == w.encoding() + tail {
                        lemma_parts_of_shared_by_value(w, tail);
                        assert(w.object.is_readable());
                    }
                }
                return None;
            },
        };
        proof {
            lemma_skip_splits(bytes@, pos as int, at1 as int);
        }
        let v = InvalidSharedByValue { object: x1 };
        proof {
            lemma_parts_of_shared_by_value(v, Seq::empty());
            assert(v.is_readable());
        }
        Some((v, at1))
    }
}

/// The encoding of a value of this type, followed by anything, is its parts one
/// after the other, followed by the same.
pub proof fn lemma_parts_of_module_id(w: ModuleId, tail: Seq<u8>)
    ensures
        w.encoding() == w.address.encoding() + (w.name.encoding()),
        w.encoding() + tail == w.address.encoding() + (w.name.encoding() + tail),
{
    lemma_regroup(w.address.encoding(), w.name.encoding(), tail);
}

impl Encode for ModuleId {
    open spec fn encoding(&self) -> Seq<u8> {
        self.address.encoding() + (self.name.encoding())
    }

    fn encode(&self, out: &mut Vec<u8>) {
        assert(self.encoding() == self.address.encoding() + (self.name.encoding()));
        let ghost s0 = out@;
        self.address.encode(out);
        self.name.encode(out);
        proof {
            lemma_regroup(s0, self.address.encoding(), self.name.encoding());
        }
    }
}

impl Decode for ModuleId {
    open spec fn is_readable(&self) -> bool {
        self.name.is_readable()
    }

    proof fn lemma_split(a: Self, b: Self, ra: Seq<u8>, rb: Seq<u8>) {
        lemma_parts_of_module_id(a, ra);
        lemma_parts_of_module_id(b, rb);
        AccountAddress::lemma_split(a.address, b.address, a.name.encoding() + ra,
            b.name.encoding() + rb);
        Identifier::lemma_split(a.name, b.name, ra, rb);
        lemma_cancel_tail(a.encoding(), b.encoding(), ra);
    }

    fn decode(bytes: &[u8], pos: usize) -> (r: Option<(Self, usize)>) {
        let ghost at = bytes@.skip(pos as int);
        let (x1, at1) = match AccountAddress::decode(bytes, pos) {
            Some(found) => found,
            None => {
                assert forall|w: Self, tail: Seq<u8>| w.is_readable()
                    implies at != #[trigger] (w.encoding() + tail) by {
                    if at == w.encoding() + tail {
                        lemma_parts_of_module_id(w, tail);
                        assert(w.address.is_readable());
                    }
                }
                return None;
            },
        };
        proof {
            lemma_skip_splits(bytes@, pos as int, at1 as int);
            assert forall|w: Self, tail: Seq<u8>| at == #[trigger] (w.encoding() + tail)
                implies bytes@.skip(at1 as int) == w.name.encoding() + tail by {
                lemma_parts_of_module_id(w, tail);
                AccountAddress::lemma_split(x1, w.address, bytes@.skip(at1 as int),
                    w.name.encoding() + tail);
            }
        }
        let (x2, at2) = match Identifier::decode(bytes, at1) {
            Some(found) => found,
            None => {
                assert forall|w: Self, tail: Seq<u8>| w.is_readable()
                    implies at != #[trigger] (w.encoding() + tail) by {
                    if at == w.encoding() + tail {
                        assert(bytes@.skip(at1 as int) == w.name.encoding() + tail);
                        assert(w.name.is_readable());
                    }
                }
                return None;
            },
        };
        proof {
            lemma_skip_splits(bytes@, at1 as int, at2 as int);
        }
        let v = ModuleId { address: x1, name: x2 };
        proof {
            lemma_parts_of_module_id(v, Seq::empty());
            lemma_join(bytes@, pos as int, at1 as int, at2 as int);
            assert(v.is_readable());
        }
        Some((v, at2))
    }
}

/// The encoding of a value of this type, followed by anything, is its parts one
/// after the other, followed by the same.
pub proof fn lemma_parts_of_move_abort(w: MoveAbortData, tail: Seq<u8>)
    ensures
        w.encoding() == w.module.encoding() + (w.code.encoding()),
        w.encoding() + tail == w.module.encoding() + (w.code.encoding() + tail),
{
    lemma_regroup(w.module.encoding(), w.code.encoding(), tail);
}

impl Encode for MoveAbortData {
    open spec fn encoding(&self) -> Seq<u8> {
        self.module.encoding() + (self.code.encoding())
    }

    fn encode(&self, out: &mut Vec<u8>) {
        assert(self.encoding() == self.module.encoding() + (self.code.encoding()));
        let ghost s0 = out@;
        self.module.encode(out);
        self.code.encode(out);
        proof {
            lemma_regroup(s0, self.module.encoding(), self.code.encoding());
        }
    }
}

impl Decode for MoveAbortData {
    open spec fn is_readable(&self) -> bool {
        self.module.is_readable()
    }

    proof fn lemma_split(a: Self, b: Self, ra: Seq<u8>, rb: Seq<u8>) {
        lemma_parts_of_move_abort(a, ra);
        lemma_parts_of_move_abort(b, rb);
        ModuleId::lemma_split(a.module, b.module, a.code.encoding() + ra, b.code.encoding()
            + rb);
        u64::lemma_split(a.code, b.code, ra, rb);
        lemma_cancel_tail(a.encoding(), b.encoding(), ra);
    }

    fn decode(bytes: &[u8], pos: usize) -> (r: Option<(Self, usize)>) {
        let ghost at = bytes@.skip(pos as int);
        let (x1, at1) = match ModuleId::decode(bytes, pos) {
            Some(found) => found,
            None => {
                assert forall|w: Self, tail: Seq<u8>| w.is_readable()
                    implies at != #[trigger] (w.encoding() + tail) by {
                    if at == w.encoding() + tail {
                        lemma_parts_of_move_abort(w, tail);
                        assert(w.module.is_readable());
                    }
                }
                return None;
            },
        };
        proof {
            lemma_skip_splits(bytes@, pos as int, at1 as int);
            assert forall|w: Self, tail: Seq<u8>| at == #[trigger] (w.encoding() + tail)
                implies bytes@.skip(at1 as int) == w.code.encoding() + tail by {
                lemma_parts_of_move_abort(w, tail);
                ModuleId::lemma_split(x1, w.module, bytes@.skip(at1 as int), w.code.encoding()
                    + tail);
            }
        }
        let (x2, at2) = match u64::decode(bytes, at1) {
            Some(found) => found,
            None => {
                assert forall|w: Self, tail: Seq<u8>| w.is_readable()
                    implies at != #[trigger] (w.encoding() + tail) by {
                    if at == w.encoding() + tail {
                        assert(bytes@.skip(at1 as int) == w.code.encoding() + tail);
                        assert(w.code.is_readable());
                    }
                }
                return None;
            },
        };
        proof {
            lemma_skip_splits(bytes@, at1 as int, at2 as int);
        }
        let v = MoveAbortData { module: x1, code: x2 };
        proof {
            lemma_parts_of_move_abort(v, Seq::empty());
            lemma_join(bytes@, pos as int, at1 as int, at2 as int);
            assert(v.is_readable());
        }
        Some((v, at2))
    }
}

/// The index of the variant of `w`.
pub open spec fn failure_index(w: ExecutionFailureStatus) -> u8 {
    match w {
        ExecutionFailureStatus::InsufficientGas => 0,
        ExecutionFailureStatus::InvalidGasObject => 1,
        ExecutionFailureStatus::InvalidTransactionUpdate => 2,
        ExecutionFailureStatus::ModuleNotFound => 3,
        ExecutionFailureStatus::FunctionNotFound => 4,
        ExecutionFailureStatus::InvariantViolation => 5,
        ExecutionFailureStatus::InvalidTransferObject => 6,
        ExecutionFailureStatus::InvalidTransferSui => 7,
        ExecutionFailureStatus::InvalidTransferSuiInsufficientBalance => 8,
        ExecutionFailureStatus::InvalidCoinObject => 9,
        ExecutionFailureStatus::EmptyInputCoins => 10,
        ExecutionFailureStatus::EmptyRecipients => 11,
        ExecutionFailureStatus::RecipientsAmountsArityMismatch => 12,
        ExecutionFailureStatus::InsufficientBalance => 13,
        ExecutionFailureStatus::NonEntryFunctionInvoked => 14,
        ExecutionFailureStatus::EntryTypeArityMismatch => 15,
        ExecutionFailureStatus::EntryArgumentError(_) => 16,
        ExecutionFailureStatus::CircularObjectOwnership(_) => 17,
        ExecutionFailureStatus::MissingObjectOwner(_) => 18,
        ExecutionFailureStatus::InvalidSharedChildUse(_) => 19,
        ExecutionFailureStatus::InvalidSharedByValue(_) => 20,
        ExecutionFailureStatus::TooManyChildObjects { .. } => 21,
        ExecutionFailureStatus::InvalidParentDeletion { .. } => 22,
        ExecutionFailureStatus::InvalidParentFreezing { .. } => 23,
        ExecutionFailureStatus::PublishErrorEmptyPackage => 24,
        ExecutionFailureStatus::PublishErrorNonZeroAddress => 25,
        ExecutionFailureStatus::PublishErrorDuplicateModule => 26,
        ExecutionFailureStatus::SuiMoveVerificationError => 27,
        ExecutionFailureStatus::MovePrimitiveRuntimeError => 28,
        ExecutionFailureStatus::MoveAbort(_, _) => 29,
        ExecutionFailureStatus::VMVerificationOrDeserializationError => 30,
        ExecutionFailureStatus::VMInvariantViolation => 31,
    }
}

/// The encoding of what the variant of `w` carries.
pub open spec fn failure_payload(w: ExecutionFailureStatus) -> Seq<u8> {
    match w {
        ExecutionFailureStatus::InsufficientGas => Seq::empty(),
        ExecutionFailureStatus::InvalidGasObject => Seq::empty(),
        ExecutionFailureStatus::InvalidTransactionUpdate => Seq::empty(),
        ExecutionFailureStatus::ModuleNotFound => Seq::empty(),
        ExecutionFailureStatus::FunctionNotFound => Seq::empty(),
        ExecutionFailureStatus::InvariantViolation => Seq::empty(),
        ExecutionFailureStatus::InvalidTransferObject => Seq::empty(),
        ExecutionFailureStatus::InvalidTransferSui => Seq::empty(),
        ExecutionFailureStatus::InvalidTransferSuiInsufficientBalance => Seq::empty(),
        ExecutionFailureStatus::InvalidCoinObject => Seq::empty(),
        ExecutionFailureStatus::EmptyInputCoins => Seq::empty(),
        ExecutionFailureStatus::EmptyRecipients => Seq::empty(),
        ExecutionFailureStatus::RecipientsAmountsArityMismatch => Seq::empty(),
        ExecutionFailureStatus::InsufficientBalance => Seq::empty(),
        ExecutionFailureStatus::NonEntryFunctionInvoked => Seq::empty(),
        ExecutionFailureStatus::EntryTypeArityMismatch => Seq::empty(),
        ExecutionFailureStatus::EntryArgumentError(inner) => inner.encoding(),
        ExecutionFailureStatus::CircularObjectOwnership(inner) => inner.encoding(),
        ExecutionFailureStatus::MissingObjectOwner(inner) => inner.encoding(),
        ExecutionFailureStatus::InvalidSharedChildUse(inner) => inner.encoding(),
        ExecutionFailureStatus::InvalidSharedByValue(inner) => inner.encoding(),
        ExecutionFailureStatus::TooManyChildObjects { object: inner } => inner.encoding(),
        ExecutionFailureStatus::InvalidParentDeletion { parent: first, kind: second } =>
            (first, second).encoding(),
        ExecutionFailureStatus::InvalidParentFreezing { parent: inner } => inner.encoding(),
        ExecutionFailureStatus::PublishErrorEmptyPackage => Seq::empty(),
        ExecutionFailureStatus::PublishErrorNonZeroAddress => Seq::empty(),
        ExecutionFailureStatus::PublishErrorDuplicateModule => Seq::empty(),
        ExecutionFailureStatus::SuiMoveVerificationError => Seq::empty(),
        ExecutionFailureStatus::MovePrimitiveRuntimeError => Seq::empty(),
        ExecutionFailureStatus::MoveAbort(first, second) =>
            (MoveAbortData { module: first, code: second }).encoding(),
        ExecutionFailureStatus::VMVerificationOrDeserializationError => Seq::empty(),
        ExecutionFailureStatus::VMInvariantViolation => Seq::empty(),
    }
}

impl Encode for ExecutionFailureStatus {
    open spec fn encoding(&self) -> Seq<u8> {
        variant_tag(failure_index(*self)) + failure_payload(*self)
    }

    fn encode(&self, out: &mut Vec<u8>) {
        assert(self.encoding() == variant_tag(failure_index(*self)) + failure_payload(*self));
        let ghost start = out@;
        match self {
            ExecutionFailureStatus::InsufficientGas => {
                write_tag(out, 0);
            },
            ExecutionFailureStatus::InvalidGasObject => {
                write_tag(out, 1);
            },
            ExecutionFailureStatus::InvalidTransactionUpdate => {
                write_tag(out, 2);
            },
            ExecutionFailureStatus::ModuleNotFound => {
                write_tag(out, 3);
            },
            ExecutionFailureStatus::FunctionNotFound => {
                write_tag(out, 4);
            },
            ExecutionFailureStatus::InvariantViolation => {
                write_tag(out, 5);
            },
            ExecutionFailureStatus::InvalidTransferObject => {
                write_tag(out, 6);
            },
            ExecutionFailureStatus::InvalidTransferSui => {
                write_tag(out, 7);
            },
            ExecutionFailureStatus::InvalidTransferSuiInsufficientBalance => {
                write_tag(out, 8);
            },
            ExecutionFailureStatus::InvalidCoinObject => {
                write_tag(out, 9);
            },
            ExecutionFailureStatus::EmptyInputCoins => {
                write_tag(out, 10);
            },
            ExecutionFailureStatus::EmptyRecipients => {
                write_tag(out, 11);
            },
            ExecutionFailureStatus::RecipientsAmountsArityMismatch => {
                write_tag(out, 12);
            },
            ExecutionFailureStatus::InsufficientBalance => {
                write_tag(out, 13);
            },
            ExecutionFailureStatus::NonEntryFunctionInvoked => {
                write_tag(out, 14);
            },
            ExecutionFailureStatus::EntryTypeArityMismatch => {
                write_tag(out, 15);
            },
            ExecutionFailureStatus::EntryArgumentError(x) => {
                write_tag(out, 16);
                x.encode(out);
                assert((*x).encoding() == x.encoding());
            },
            ExecutionFailureStatus::CircularObjectOwnership(x) => {
                write_tag(out, 17);
                x.encode(out);
                assert((*x).encoding() == x.encoding());
            },
            ExecutionFailureStatus::MissingObjectOwner(x) => {
                write_tag(out, 18);
                x.encode(out);
                assert((*x).encoding() == x.encoding());
            },
            ExecutionFailureStatus::InvalidSharedChildUse(x) => {
                write_tag(out, 19);
                x.encode(out);
                assert((*x).encoding() == x.encoding());
            },
            ExecutionFailureStatus::InvalidSharedByValue(x) => {
                write_tag(out, 20);
                x.encode(out);
                assert((*x).encoding() == x.encoding());
            },
            ExecutionFailureStatus::TooManyChildObjects { object } => {
                write_tag(out, 21);
                object.encode(out);
                assert((*object).encoding() == object.encoding());
            },
            ExecutionFailureStatus::InvalidParentDeletion { parent, kind } => {
                write_tag(out, 22);
                (*parent, *kind).encode(out);
                assert(((*parent, *kind)).encoding() == (*parent, *kind).encoding());
            },
            ExecutionFailureStatus::InvalidParentFreezing { parent } => {
                write_tag(out, 23);
                parent.encode(out);
                assert((*parent).encoding() == parent.encoding());
            },
            ExecutionFailureStatus::PublishErrorEmptyPackage => {
                write_tag(out, 24);
            },
            ExecutionFailureStatus::PublishErrorNonZeroAddress => {
                write_tag(out, 25);
            },
            ExecutionFailureStatus::PublishErrorDuplicateModule => {
                write_tag(out, 26);
            },
            ExecutionFailureStatus::SuiMoveVerificationError => {
                write_tag(out, 27);
            },
            ExecutionFailureStatus::MovePrimitiveRuntimeError => {
                write_tag(out, 28);
            },
            ExecutionFailureStatus::MoveAbort(module, code) => {
                write_tag(out, 29);
                module.encode(out);
                code.encode(out);
                assert((MoveAbortData { module: *module, code: *code }).encoding()
                    == module.encoding() + (code.encoding()));
            },
            ExecutionFailureStatus::VMVerificationOrDeserializationError => {
                write_tag(out, 30);
            },
            ExecutionFailureStatus::VMInvariantViolation => {
                write_tag(out, 31);
            },
        }
        assert(out@ =~= start + (variant_tag(failure_index(*self)) + failure_payload(*self)));
    }
}

impl Decode for ExecutionFailureStatus {
    open spec fn is_readable(&self) -> bool {
        (*self matches ExecutionFailureStatus::MoveAbort(first, second) ==>
            (MoveAbortData { module: first, code: second }).is_readable())
    }

    proof fn lemma_split(a: Self, b: Self, ra: Seq<u8>, rb: Seq<u8>) {
        assert(a.encoding() == variant_tag(failure_index(a)) + failure_payload(a));
        assert(b.encoding() == variant_tag(failure_index(b)) + failure_payload(b));
        lemma_regroup(variant_tag(failure_index(a)), failure_payload(a), ra);
        lemma_regroup(variant_tag(failure_index(b)), failure_payload(b), rb);
        lemma_tag_split(failure_index(a), failure_index(b), failure_payload(a) + ra,
            failure_payload(b) + rb);
        match (a, b) {
            (ExecutionFailureStatus::EntryArgumentError(x_v),
                ExecutionFailureStatus::EntryArgumentError(y_v)) => {
                EntryArgumentError::lemma_split(x_v, y_v, ra, rb);
            },
            (ExecutionFailureStatus::CircularObjectOwnership(x_v),
                ExecutionFailureStatus::CircularObjectOwnership(y_v)) => {
                CircularObjectOwnership::lemma_split(x_v, y_v, ra, rb);
            },
            (ExecutionFailureStatus::MissingObjectOwner(x_v),
                ExecutionFailureStatus::MissingObjectOwner(y_v)) => {
                MissingObjectOwner::lemma_split(x_v, y_v, ra, rb);
            },
            (ExecutionFailureStatus::InvalidSharedChildUse(x_v),
                ExecutionFailureStatus::InvalidSharedChildUse(y_v)) => {
                InvalidSharedChildUse::lemma_split(x_v, y_v, ra, rb);
            },
            (ExecutionFailureStatus::InvalidSharedByValue(x_v),
                ExecutionFailureStatus::InvalidSharedByValue(y_v)) => {
                InvalidSharedByValue::lemma_split(x_v, y_v, ra, rb);
            },
            (ExecutionFailureStatus::TooManyChildObjects { object: x_v },
                ExecutionFailureStatus::TooManyChildObjects { object: y_v }) => {
                ObjectID::lemma_split(x_v, y_v, ra, rb);
            },
            (ExecutionFailureStatus::InvalidParentDeletion { parent: x_a, kind: x_b },
                ExecutionFailureStatus::InvalidParentDeletion { parent: y_a, kind: y_b }) => {
                <(ObjectID, Option<DeleteKind>)>::lemma_split((x_a, x_b), (y_a, y_b), ra, rb);
            },
            (ExecutionFailureStatus::InvalidParentFreezing { parent: x_v },
                ExecutionFailureStatus::InvalidParentFreezing { parent: y_v }) => {
                ObjectID::lemma_split(x_v, y_v, ra, rb);
            },
            (ExecutionFailureStatus::MoveAbort(x_a, x_b),
                ExecutionFailureStatus::MoveAbort(y_a, y_b)) => {
                MoveAbortData::lemma_split(MoveAbortData { module: x_a, code: x_b },
                    MoveAbortData { module: y_a, code: y_b }, ra, rb);
            },
            _ => {
                lemma_same_length_split(failure_payload(a), failure_payload(b), ra, rb);
            },
        }
        lemma_cancel_tail(a.encoding(), b.encoding(), ra);
    }

    fn decode(bytes: &[u8], pos: usize) -> (r: Option<(Self, usize)>) {
        let ghost at = bytes@.skip(pos as int);
        let (tag, at1) = match read_tag(bytes, pos) {
            Some(found) => found,
            None => {
                assert forall|w: Self, tail: Seq<u8>| at != #[trigger] (w.encoding() + tail) by {
                    assert(w.encoding() == variant_tag(failure_index(w)) + failure_payload(w));
                    assert(at.len() == 0);
                    assert((w.encoding() + tail).len() > 0);
                }
                return None;
            },
        };
        proof {
            lemma_skip_splits(bytes@, pos as int, at1 as int);
            assert(bytes@.subrange(pos as int, at1 as int) =~= variant_tag(tag));
            assert forall|w: Self, tail: Seq<u8>| at == #[trigger] (w.encoding() + tail)
                implies failure_index(w) == tag && bytes@.skip(at1 as int) == failure_payload(w)
                    + tail by {
                assert(w.encoding() == variant_tag(failure_index(w)) + failure_payload(w));
                lemma_regroup(variant_tag(failure_index(w)), failure_payload(w), tail);
                lemma_tag_split(tag, failure_index(w), bytes@.skip(at1 as int),
                    failure_payload(w) + tail);
            }
        }
        if tag == 0 {
            let v = ExecutionFailureStatus::InsufficientGas;
            proof {
                assert(v.encoding() =~= variant_tag(0));
                assert(v.is_readable());
            }
            Some((v, at1))
        } else if tag == 1 {
            let v = ExecutionFailureStatus::InvalidGasObject;
            proof {
                assert(v.encoding() =~= variant_tag(1));
                assert(v.is_readable());
            }
            Some((v, at1))
        } else if tag == 2 {
            let v = ExecutionFailureStatus::InvalidTransactionUpdate;
            proof {
                assert(v.encoding() =~= variant_tag(2));
                assert(v.is_readable());
            }
            Some((v, at1))
        } else if tag == 3 {
            let v = ExecutionFailureStatus::ModuleNotFound;
            proof {
                assert(v.encoding() =~= variant_tag(3));
                assert(v.is_readable());
            }
            Some((v, at1))
        } else if tag == 4 {
            let v = ExecutionFailureStatus::FunctionNotFound;
            proof {
                assert(v.encoding() =~= variant_tag(4));
                assert(v.is_readable());
            }
            Some((v, at1))
        } else if tag == 5 {
            let v = ExecutionFailureStatus::InvariantViolation;
            proof {
                assert(v.encoding() =~= variant_tag(5));
                assert(v.is_readable());
            }
            Some((v, at1))
        } else if tag == 6 {
            let v = ExecutionFailureStatus::InvalidTransferObject;
            proof {
                assert(v.encoding() =~= variant_tag(6));
                assert(v.is_readable());
            }
            Some((v, at1))
        } else if tag == 7 {
            let v = ExecutionFailureStatus::InvalidTransferSui;
            proof {
                assert(v.encoding() =~= variant_tag(7));
                assert(v.is_readable());
            }
            Some((v, at1))
        } else if tag == 8 {
            let v = ExecutionFailureStatus::InvalidTransferSuiInsufficientBalance;
            proof {
                assert(v.encoding() =~= variant_tag(8));
                assert(v.is_readable());
            }
            Some((v, at1))
        } else if tag == 9 {
            let v = ExecutionFailureStatus::InvalidCoinObject;
            proof {
                assert(v.encoding() =~= variant_tag(9));
                assert(v.is_readable());
            }
            Some((v, at1))
        } else if tag == 10 {
            let v = ExecutionFailureStatus::EmptyInputCoins;
            proof {
                assert(v.encoding() =~= variant_tag(10));
                assert(v.is_readable());
            }
            Some((v, at1))
        } else if tag == 11 {
            let v = ExecutionFailureStatus::EmptyRecipients;
            proof {
                assert(v.encoding() =~= variant_tag(11));
                assert(v.is_readable());
            }
            Some((v, at1))
        } else if tag == 12 {
            let v = ExecutionFailureStatus::RecipientsAmountsArityMismatch;
            proof {
                assert(v.encoding() =~= variant_tag(12));
                assert(v.is_readable());
            }
            Some((v, at1))
        } else if tag == 13 {
            let v = ExecutionFailureStatus::InsufficientBalance;
            proof {
                assert(v.encoding() =~= variant_tag(13));
                assert(v.is_readable());
            }
            Some((v, at1))
        } else if tag == 14 {
            let v = ExecutionFailureStatus::NonEntryFunctionInvoked;
            proof {
                assert(v.encoding() =~= variant_tag(14));
                assert(v.is_readable());
            }
            Some((v, at1))
        } else if tag == 15 {
            let v = ExecutionFailureStatus::EntryTypeArityMismatch;
            proof {
                assert(v.encoding() =~= variant_tag(15));
                assert(v.is_readable());
            }
            Some((v, at1))
        } else if tag == 16 {
            match EntryArgumentError::decode(bytes, at1) {
                Some((x, at2)) => {
                    let ghost held = x.encoding();
                    let v = ExecutionFailureStatus::EntryArgumentError(x);
                    proof {
                        lemma_join(bytes@, pos as int, at1 as int, at2 as int);
                        assert(failure_payload(v) == held);
                        assert(v.encoding() == variant_tag(16) + held);
                        assert(v.is_readable());
                    }
                    Some((v, at2))
                },
                None => {
                    assert forall|w: Self, tail: Seq<u8>| w.is_readable()
                        implies at != #[trigger] (w.encoding() + tail) by {
                        if at == w.encoding() + tail {
                            let x = w->EntryArgumentError_0;
                            assert(x.is_readable());
                            assert(bytes@.skip(at1 as int) == x.encoding() + tail);
                        }
                    }
                    None
                },
            }
        } else if tag == 17 {
            match CircularObjectOwnership::decode(bytes, at1) {
                Some((x, at2)) => {
                    let ghost held = x.encoding();
                    let v = ExecutionFailureStatus::CircularObjectOwnership(x);
                    proof {
                        lemma_join(bytes@, pos as int, at1 as int, at2 as int);
                        assert(failure_payload(v) == held);
                        assert(v.encoding() == variant_tag(17) + held);
                        assert(v.is_readable());
                    }
                    Some((v, at2))
                },
                None => {
                    assert forall|w: Self, tail: Seq<u8>| w.is_readable()
                        implies at != #[trigger] (w.encoding() + tail) by {
                        if at == w.encoding() + tail {
                            let x = w->CircularObjectOwnership_0;
                            assert(x.is_readable());
                            assert(bytes@.skip(at1 as int) == x.encoding() + tail);
                        }
                    }
                    None
                },
            }
        } else if tag == 18 {
            match MissingObjectOwner::decode(bytes, at1) {
                Some((x, at2)) => {
                    let ghost held = x.encoding();
                    let v = ExecutionFailureStatus::MissingObjectOwner(x);
                    proof {
                        lemma_join(bytes@, pos as int, at1 as int, at2 as int);
                        assert(failure_payload(v) == held);
                        assert(v.encoding() == variant_tag(18) + held);
                        assert(v.is_readable());
                    }
                    Some((v, at2))
                },
                None => {
                    assert forall|w: Self, tail: Seq<u8>| w.is_readable()
                        implies at != #[trigger] (w.encoding() + tail) by {
                        if at == w.encoding() + tail {
                            let x = w->MissingObjectOwner_0;
                            assert(x.is_readable());
                            assert(bytes@.skip(at1 as int) == x.encoding() + tail);
                        }
                    }
                    None
                },
            }
        } else if tag == 19 {
            match InvalidSharedChildUse::decode(bytes, at1) {
                Some((x, at2)) => {
                    let ghost held = x.encoding();
                    let v = ExecutionFailureStatus::InvalidSharedChildUse(x);
                    proof {
                        lemma_join(bytes@, pos as int, at1 as int, at2 as int);
                        assert(failure_payload(v) == held);
                        assert(v.encoding() == variant_tag(19) + held);
                        assert(v.is_readable());
                    }
                    Some((v, at2))
                },
                None => {
                    assert forall|w: Self, tail: Seq<u8>| w.is_readable()
                        implies at != #[trigger] (w.encoding() + tail) by {
                        if at == w.encoding() + tail {
                            let x = w->InvalidSharedChildUse_0;
                            assert(x.is_readable());
                            assert(bytes@.skip(at1 as int) == x.encoding() + tail);
                        }
                    }
                    None
                },
            }
        } else if tag == 20 {
            match InvalidSharedByValue::decode(bytes, at1) {
                Some((x, at2)) => {
                    let ghost held = x.encoding();
                    let v = ExecutionFailureStatus::InvalidSharedByValue(x);
                    proof {
                        lemma_join(bytes@, pos as int, at1 as int, at2 as int);
                        assert(failure_payload(v) == held);
                        assert(v.encoding() == variant_tag(20) + held);
                        assert(v.is_readable());
                    }
                    Some((v, at2))
                },
                None => {
                    assert forall|w: Self, tail: Seq<u8>| w.is_readable()
                        implies at != #[trigger] (w.encoding() + tail) by {
                        if at == w.encoding() + tail {
                            let x = w->InvalidSharedByValue_0;
                            assert(x.is_readable());
                            assert(bytes@.skip(at1 as int) == x.encoding() + tail);
                        }
                    }
                    None
                },
            }
        } else if tag == 21 {
            match ObjectID::decode(bytes, at1) {
                Some((x, at2)) => {
                    let ghost held = x.encoding();
                    let v = ExecutionFailureStatus::TooManyChildObjects { object: x };
                    proof {
                        lemma_join(bytes@, pos as int, at1 as int, at2 as int);
                        assert(failure_payload(v) == held);
                        assert(v.encoding() == variant_tag(21) + held);
                        assert(v.is_readable());
                    }
                    Some((v, at2))
                },
                None => {
                    assert forall|w: Self, tail: Seq<u8>| w.is_readable()
                        implies at != #[trigger] (w.encoding() + tail) by {
                        if at == w.encoding() + tail {
                            let x = w->TooManyChildObjects_object;
                            assert(x.is_readable());
                            assert(bytes@.skip(at1 as int) == x.encoding() + tail);
                        }
                    }
                    None
                },
            }
        } else if tag == 22 {
            match <(ObjectID, Option<DeleteKind>)>::decode(bytes, at1) {
                Some((x, at2)) => {
                    let ghost held = x.encoding();
                    let v = ExecutionFailureStatus::InvalidParentDeletion { parent: x.0,
                        kind: x.1 };
                    proof {
                        lemma_join(bytes@, pos as int, at1 as int, at2 as int);
                        assert(failure_payload(v) == held);
                        assert(v.encoding() == variant_tag(22) + held);
                        assert(v.is_readable());
                    }
                    Some((v, at2))
                },
                None => {
                    assert forall|w: Self, tail: Seq<u8>| w.is_readable()
                        implies at != #[trigger] (w.encoding() + tail) by {
                        if at == w.encoding() + tail {
                            let x = (w->InvalidParentDeletion_parent,
                                w->InvalidParentDeletion_kind);
                            assert(x.is_readable());
                            assert(bytes@.skip(at1 as int) == x.encoding() + tail);
                        }
                    }
                    None
                },
            }
        } else if tag == 23 {
            match ObjectID::decode(bytes, at1) {
                Some((x, at2)) => {
                    let ghost held = x.encoding();
                    let v = ExecutionFailureStatus::InvalidParentFreezing { parent: x };
                    proof {
                        lemma_join(bytes@, pos as int, at1 as int, at2 as int);
                        assert(failure_payload(v) == held);
                        assert(v.encoding() == variant_tag(23) + held);
                        assert(v.is_readable());
                    }
                    Some((v, at2))
                },
                None => {
                    assert forall|w: Self, tail: Seq<u8>| w.is_readable()
                        implies at != #[trigger] (w.encoding() + tail) by {
                        if at == w.encoding() + tail {
                            let x = w->InvalidParentFreezing_parent;
                            assert(x.is_readable());
                            assert(bytes@.skip(at1 as int) == x.encoding() + tail);
                        }
                    }
                    None
                },
            }
        } else if tag == 24 {
            let v = ExecutionFailureStatus::PublishErrorEmptyPackage;
            proof {
                assert(v.encoding() =~= variant_tag(24));
                assert(v.is_readable());
            }
            Some((v, at1))
        } else if tag == 25 {
            let v = ExecutionFailureStatus::PublishErrorNonZeroAddress;
            proof {
                assert(v.encoding() =~= variant_tag(25));
                assert(v.is_readable());
            }
            Some((v, at1))
        } else if tag == 26 {
            let v = ExecutionFailureStatus::PublishErrorDuplicateModule;
            proof {
                assert(v.encoding() =~= variant_tag(26));
                assert(v.is_readable());
            }
            Some((v, at1))
        } else if tag == 27 {
            let v = ExecutionFailureStatus::SuiMoveVerificationError;
            proof {
                assert(v.encoding() =~= variant_tag(27));
                assert(v.is_readable());
            }
            Some((v, at1))
        } else if tag == 28 {
            let v = ExecutionFailureStatus::MovePrimitiveRuntimeError;
            proof {
                assert(v.encoding() =~= variant_tag(28));
                assert(v.is_readable());
            }
            Some((v, at1))
        } else if tag == 29 {
            match MoveAbortData::decode(bytes, at1) {
                Some((x, at2)) => {
                    let ghost held = x.encoding();
                    let v = ExecutionFailureStatus::MoveAbort(x.module, x.code);
                    proof {
                        lemma_join(bytes@, pos as int, at1 as int, at2 as int);
                        assert(failure_payload(v) == held);
                        assert(v.encoding() == variant_tag(29) + held);
                        assert(v.is_readable());
                    }
                    Some((v, at2))
                },
                None => {
                    assert forall|w: Self, tail: Seq<u8>| w.is_readable()
                        implies at != #[trigger] (w.encoding() + tail) by {
                        if at == w.encoding() + tail {
                            let x = MoveAbortData { module: w->MoveAbort_0, code: w->MoveAbort_1 };
                            assert(x.is_readable());
                            assert(bytes@.skip(at1 as int) == x.encoding() + tail);
                        }
                    }
                    None
                },
            }
        } else if tag == 30 {
            let v = ExecutionFailureStatus::VMVerificationOrDeserializationError;
            proof {
                assert(v.encoding() =~= variant_tag(30));
                assert(v.is_readable());
            }
            Some((v, at1))
        } else if tag == 31 {
            let v = ExecutionFailureStatus::VMInvariantViolation;
            proof {
                assert(v.encoding() =~= variant_tag(31));
                assert(v.is_readable());
            }
            Some((v, at1))
        } else {
            None
        }
    }
}

/// The index of the variant of `w`.
pub open spec fn status_index(w: ExecutionStatus) -> u8 {
    match w {
        ExecutionStatus::Success => 0,
        ExecutionStatus::Failure { .. } => 1,
    }
}

/// The encoding of what the variant of `w` carries.
pub open spec fn status_payload(w: ExecutionStatus) -> Seq<u8> {
    match w {
        ExecutionStatus::Success => Seq::empty(),
        ExecutionStatus::Failure { error: inner } => inner.encoding(),
    }
}

impl Encode for ExecutionStatus {
    open spec fn encoding(&self) -> Seq<u8> {
        variant_tag(status_index(*self)) + status_payload(*self)
    }

    fn encode(&self, out: &mut Vec<u8>) {
        assert(self.encoding() == variant_tag(status_index(*self)) + status_payload(*self));
        let ghost start = out@;
        match self {
            ExecutionStatus::Success => {
                write_tag(out, 0);
            },
            ExecutionStatus::Failure { error } => {
                write_tag(out, 1);
                error.encode(out);
                assert((*error).encoding() == error.encoding());
            },
        }
        assert(out@ =~= start + (variant_tag(status_index(*self)) + status_payload(*self)));
    }
}

impl Decode for ExecutionStatus {
    open spec fn is_readable(&self) -> bool {
        (*self matches ExecutionStatus::Failure { error: inner } ==> inner.is_readable())
    }

    proof fn lemma_split(a: Self, b: Self, ra: Seq<u8>, rb: Seq<u8>) {
        assert(a.encoding() == variant_tag(status_index(a)) + status_payload(a));
        assert(b.encoding() == variant_tag(status_index(b)) + status_payload(b));
        lemma_regroup(variant_tag(status_index(a)), status_payload(a), ra);
        lemma_regroup(variant_tag(status_index(b)), status_payload(b), rb);
        lemma_tag_split(status_index(a), status_index(b), status_payload(a) + ra,
            status_payload(b) + rb);
        match (a, b) {
            (ExecutionStatus::Failure { error: x_v }, ExecutionStatus::Failure { error: y_v }) => {
                ExecutionFailureStatus::lemma_split(x_v, y_v, ra, rb);
            },
            _ => {
                lemma_same_length_split(status_payload(a), status_payload(b), ra, rb);
            },
        }
        lemma_cancel_tail(a.encoding(), b.encoding(), ra);
    }

    fn decode(bytes: &[u8], pos: usize) -> (r: Option<(Self, usize)>) {
        let ghost at = bytes@.skip(pos as int);
        let (tag, at1) = match read_tag(bytes, pos) {
            Some(found) => found,
            None => {
                assert forall|w: Self, tail: Seq<u8>| at != #[trigger] (w.encoding() + tail) by {
                    assert(w.encoding() == variant_tag(status_index(w)) + status_payload(w));
                    assert(at.len() == 0);
                    assert((w.encoding() + tail).len() > 0);
                }
                return None;
            },
        };
        proof {
            lemma_skip_splits(bytes@, pos as int, at1 as int);
            assert(bytes@.subrange(pos as int, at1 as int) =~= variant_tag(tag));
            assert forall|w: Self, tail: Seq<u8>| at == #[trigger] (w.encoding() + tail)
                implies status_index(w) == tag && bytes@.skip(at1 as int) == status_payload(w)
                    + tail by {
                assert(w.encoding() == variant_tag(status_index(w)) + status_payload(w));
                lemma_regroup(variant_tag(status_index(w)), status_payload(w), tail);
                lemma_tag_split(tag, status_index(w), bytes@.skip(at1 as int), status_payload(w)
                    + tail);
            }
        }
        if tag == 0 {
            let v = ExecutionStatus::Success;
            proof {
                assert(v.encoding() =~= variant_tag(0));
                assert(v.is_readable());
            }
            Some((v, at1))
        } else if tag == 1 {
            match ExecutionFailureStatus::decode(bytes, at1) {
                Some((x, at2)) => {
                    let ghost held = x.encoding();
                    let v = ExecutionStatus::Failure { error: x };
                    proof {
                        lemma_join(bytes@, pos as int, at1 as int, at2 as int);
                        assert(status_payload(v) == held);
                        assert(v.encoding() == variant_tag(1) + held);
                        assert(v.is_readable());
                    }
                    Some((v, at2))
                },
                None => {
                    assert forall|w: Self, tail: Seq<u8>| w.is_readable()
                        implies at != #[trigger] (w.encoding() + tail) by {
                        if at == w.encoding() + tail {
                            let x = w->Failure_error;
                            assert(x.is_readable());
                            assert(bytes@.skip(at1 as int) == x.encoding() + tail);
                        }
                    }
                    None
                },
            }
        } else {
            None
        }
    }
}

} // verus!
