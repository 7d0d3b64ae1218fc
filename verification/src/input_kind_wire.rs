//! The encoding of the kinds of input, written and read back.

use crate::base_types::{ObjectDigest, ObjectID, SequenceNumber};
use crate::codec::{variant_tag, write_tag, Encode};
use crate::framing::{lemma_cancel_tail, lemma_regroup, lemma_same_length_split};
use crate::reading::{lemma_join, lemma_skip_splits, read_tag, Decode};
use crate::transaction::InputObjectKind;
use crate::wire_laws::lemma_tag_split;
use vstd::prelude::*;

verus! {

/// The index of the variant of `w`.
pub open spec fn input_kind_index(w: InputObjectKind) -> u8 {
    match w {
        InputObjectKind::MovePackage(_) => 0,
        InputObjectKind::ImmOrOwnedMoveObject(_) => 1,
        InputObjectKind::SharedMoveObject(_) => 2,
    }
}

/// The encoding of what the variant of `w` carries.
pub open spec fn input_kind_payload(w: InputObjectKind) -> Seq<u8> {
    match w {
        InputObjectKind::MovePackage(inner) => inner.encoding(),
        InputObjectKind::ImmOrOwnedMoveObject(inner) => inner.encoding(),
        InputObjectKind::SharedMoveObject(inner) => inner.encoding(),
    }
}

impl Encode for InputObjectKind {
    open spec fn encoding(&self) -> Seq<u8> {
        variant_tag(input_kind_index(*self)) + input_kind_payload(*self)
    }

    fn encode(&self, out: &mut Vec<u8>) {
        assert(self.encoding() == variant_tag(input_kind_index(*self)) + input_kind_payload(*self));
        let ghost start = out@;
        match self {
            InputObjectKind::MovePackage(x) => {
                write_tag(out, 0);
                x.encode(out);
                assert((*x).encoding() == x.encoding());
            },
            InputObjectKind::ImmOrOwnedMoveObject(x) => {
                write_tag(out, 1);
                x.encode(out);
                assert((*x).encoding() == x.encoding());
            },
            InputObjectKind::SharedMoveObject(x) => {
                write_tag(out, 2);
                x.encode(out);
                assert((*x).encoding() == x.encoding());
            },
        }
        assert(out@ =~= start + (variant_tag(input_kind_index(*self)) + input_kind_payload(*self)));
    }
}

impl Decode for InputObjectKind {
    open spec fn is_readable(&self) -> bool {
        true
    }

    proof fn lemma_split(a: Self, b: Self, ra: Seq<u8>, rb: Seq<u8>) {
        assert(a.encoding() == variant_tag(input_kind_index(a)) + input_kind_payload(a));
        assert(b.encoding() == variant_tag(input_kind_index(b)) + input_kind_payload(b));
        lemma_regroup(variant_tag(input_kind_index(a)), input_kind_payload(a), ra);
        lemma_regroup(variant_tag(input_kind_index(b)), input_kind_payload(b), rb);
        lemma_tag_split(input_kind_index(a), input_kind_index(b), input_kind_payload(a)
            + ra, input_kind_payload(b) + rb);
        match (a, b) {
            (InputObjectKind::MovePackage(x_v), InputObjectKind::MovePackage(y_v)) => {
                ObjectID::lemma_split(x_v, y_v, ra, rb);
            },
            (InputObjectKind::ImmOrOwnedMoveObject(x_v),
                InputObjectKind::ImmOrOwnedMoveObject(y_v)) => {
                <(ObjectID, SequenceNumber, ObjectDigest)>::lemma_split(x_v, y_v, ra, rb);
            },
            (InputObjectKind::SharedMoveObject(x_v), InputObjectKind::SharedMoveObject(y_v)) => {
                ObjectID::lemma_split(x_v, y_v, ra, rb);
            },
            _ => {
                lemma_same_length_split(input_kind_payload(a), input_kind_payload(b), ra, rb);
            },
        }
        lemma_cancel_tail(a.encoding(), b.encoding(), ra);
    }

    fn decode(bytes: &[u8], pos: usize) -> (r: Option<(Self, usize)>) {
        let ghost at = bytes@.skip(pos as int);
        let (tag, at1) = match read_tag(bytes, pos) {
            Some(found) => found,
            None => {
                assert forall|w: Self, tail: Seq<u8>| at != #[trigger] (w.encoding() + tail) by {
                    assert(w.encoding()
                        == variant_tag(input_kind_index(w)) + input_kind_payload(w));
                    assert(at.len() == 0);
                    assert((w.encoding() + tail).len() > 0);
                }
                return None;
            },
        };
        proof {
            lemma_skip_splits(bytes@, pos as int, at1 as int);
            assert(bytes@.subrange(pos as int, at1 as int) =~= variant_tag(tag));
            assert forall|w: Self, tail: Seq<u8>| at == #[trigger] (w.encoding() + tail)
                implies input_kind_index(w) == tag
                    && bytes@.skip(at1 as int) == input_kind_payload(w) + tail by {
                assert(w.encoding() == variant_tag(input_kind_index(w)) + input_kind_payload(w));
                lemma_regroup(variant_tag(input_kind_index(w)), input_kind_payload(w), tail);
                lemma_tag_split(tag, input_kind_index(w), bytes@.skip(at1 as int),
                    input_kind_payload(w) + tail);
            }
        }
        if tag == 0 {
            match ObjectID::decode(bytes, at1) {
                Some((x, at2)) => {
                    let ghost held = x.encoding();
                    let v = InputObjectKind::MovePackage(x);
                    proof {
                        lemma_join(bytes@, pos as int, at1 as int, at2 as int);
                        assert(input_kind_payload(v) == held);
                        assert(v.encoding() == variant_tag(0) + held);
                        assert(v.is_readable());
                    }
                    Some((v, at2))
                },
                None => {
                    assert forall|w: Self, tail: Seq<u8>| w.is_readable() implies at
                        != #[trigger] (w.encoding() + tail) by {
                        if at == w.encoding() + tail {
                            let x = w->MovePackage_0;
                            assert(x.is_readable());
                            assert(bytes@.skip(at1 as int) == x.encoding() + tail);
                        }
                    }
                    None
                },
            }
        } else if tag == 1 {
            match <(ObjectID, SequenceNumber, ObjectDigest)>::decode(bytes, at1) {
                Some((x, at2)) => {
                    let ghost held = x.encoding();
                    let v = InputObjectKind::ImmOrOwnedMoveObject(x);
                    proof {
                        lemma_join(bytes@, pos as int, at1 as int, at2 as int);
                        assert(input_kind_payload(v) == held);
                        assert(v.encoding() == variant_tag(1) + held);
                        assert(v.is_readable());
                    }
                    Some((v, at2))
                },
                None => {
                    assert forall|w: Self, tail: Seq<u8>| w.is_readable() implies at
                        != #[trigger] (w.encoding() + tail) by {
                        if at == w.encoding() + tail {
                            let x = w->ImmOrOwnedMoveObject_0;
                            assert(x.is_readable());
                            assert(bytes@.skip(at1 as int) == x.encoding() + tail);
                        }
                    }
                    None
                },
            }
        } else if tag == 2 {
            match ObjectID::decode(bytes, at1) {
                Some((x, at2)) => {
                    let ghost held = x.encoding();
                    let v = InputObjectKind::SharedMoveObject(x);
                    proof {
                        lemma_join(bytes@, pos as int, at1 as int, at2 as int);
                        assert(input_kind_payload(v) == held);
                        assert(v.encoding() == variant_tag(2) + held);
                        assert(v.is_readable());
                    }
                    Some((v, at2))
                },
                None => {
                    assert forall|w: Self, tail: Seq<u8>| w.is_readable() implies at
                        != #[trigger] (w.encoding() + tail) by {
                        if at == w.encoding() + tail {
                            let x = w->SharedMoveObject_0;
                            assert(x.is_readable());
                            assert(bytes@.skip(at1 as int) == x.encoding() + tail);
                        }
                    }
                    None
                },
            }
        } else {
            None
        }
    }
}

} // verus!
