//! Reading the transaction data model back.

use crate::base_types::{ObjectDigest, ObjectID, SequenceNumber};
use crate::codec::{
    bytes_with_len, concat_encodings, lemma_concat_encodings, u64_le, uleb128, variant_tag,
    write_bytes, Encode,
};
use crate::framing::{lemma_bytes_split, lemma_regroup};
use crate::move_types::{is_valid_identifier, Identifier, TypeTag};
use crate::reading::{decode_vec, lemma_join, lemma_skip_splits, read_bytes, read_tag, Decode};
use crate::transaction::{CallArg, ObjectArg};
use crate::wire::enc_object_arg;
use crate::wire_laws::{
    call_arg_index, call_arg_payload, lemma_call_arg_split, lemma_object_arg_split,
    lemma_object_ref_split, lemma_tag_split,
};
use vstd::prelude::*;

verus! {

impl Decode for (ObjectID, SequenceNumber, ObjectDigest) {
    open spec fn is_readable(&self) -> bool {
        true
    }

    proof fn lemma_split(a: Self, b: Self, ra: Seq<u8>, rb: Seq<u8>) {
        lemma_object_ref_split(a, b, ra, rb);
    }

    fn decode(bytes: &[u8], pos: usize) -> (r: Option<(Self, usize)>) {
        let ghost at = bytes@.skip(pos as int);
        let (id, at1) = match ObjectID::decode(bytes, pos) {
            Some(x) => x,
            None => {
                assert forall|w: Self, tail: Seq<u8>| at != #[trigger] (w.encoding() + tail) by {
                    assert(w.encoding() + tail =~= w.0.encoding() + (u64_le(w.1.0) + w.2.0@
                        + tail));
                }
                return None;
            },
        };
        proof {
            lemma_skip_splits(bytes@, pos as int, at1 as int);
        }
        let (version, at2) = match u64::decode(bytes, at1) {
            Some(x) => x,
            None => {
                assert forall|w: Self, tail: Seq<u8>| at != #[trigger] (w.encoding() + tail) by {
                    if at == w.encoding() + tail {
                        let rest = w.1.0.encoding() + (w.2.0@ + tail);
                        assert(w.encoding() + tail =~= w.0.encoding() + rest);
                        ObjectID::lemma_split(id, w.0, bytes@.skip(at1 as int), rest);
                    }
                }
                return None;
            },
        };
        proof {
            lemma_skip_splits(bytes@, at1 as int, at2 as int);
        }
        let (digest, at3) = match ObjectDigest::decode(bytes, at2) {
            Some(x) => x,
            None => {
                assert forall|w: Self, tail: Seq<u8>| at != #[trigger] (w.encoding() + tail) by {
                    if at == w.encoding() + tail {
                        let rest = w.1.0.encoding() + (w.2.encoding() + tail);
                        assert(w.encoding() + tail =~= w.0.encoding() + rest);
                        ObjectID::lemma_split(id, w.0, bytes@.skip(at1 as int), rest);
                        u64::lemma_split(
                            version,
                            w.1.0,
                            bytes@.skip(at2 as int),
                            w.2.encoding() + tail,
                        );
                    }
                }
                return None;
            },
        };
        let v = (id, SequenceNumber::from_u64(version), digest);
        proof {
            lemma_join(bytes@, pos as int, at1 as int, at2 as int);
            lemma_join(bytes@, pos as int, at2 as int, at3 as int);
            assert(v.encoding() == id.encoding() + version.encoding() + digest.encoding());
        }
        assert(v.is_readable());
        Some((v, at3))
    }
}

impl Decode for ObjectArg {
    open spec fn is_readable(&self) -> bool {
        true
    }

    proof fn lemma_split(a: Self, b: Self, ra: Seq<u8>, rb: Seq<u8>) {
        lemma_object_arg_split(a, b, ra, rb);
    }

    fn decode(bytes: &[u8], pos: usize) -> (r: Option<(Self, usize)>) {
        let ghost at = bytes@.skip(pos as int);
        let (tag, at1) = match read_tag(bytes, pos) {
            Some(x) => x,
            None => {
                assert forall|w: Self, tail: Seq<u8>| at != #[trigger] (w.encoding() + tail) by {
                    assert(w.encoding() == enc_object_arg(w));
                    assert(at.len() == 0);
                    assert((w.encoding() + tail).len() > 0);
                }
                return None;
            },
        };
        proof {
            lemma_skip_splits(bytes@, pos as int, at1 as int);
            assert(bytes@.subrange(pos as int, at1 as int) =~= variant_tag(tag));
        }
        if tag == 0 {
            match <(ObjectID, SequenceNumber, ObjectDigest)>::decode(bytes, at1) {
                Some((object_ref, at2)) => {
                    let v = ObjectArg::ImmOrOwnedObject(object_ref);
                    proof {
                        lemma_join(bytes@, pos as int, at1 as int, at2 as int);
                        assert(v.encoding() == variant_tag(0) + object_ref.encoding());
                    }
                    assert(v.is_readable());
                    Some((v, at2))
                },
                None => {
                    assert forall|w: Self, tail: Seq<u8>| at != #[trigger] (w.encoding()
                        + tail) by {
                        if at == w.encoding() + tail {
                            assert((w.encoding() + tail)[0] == w.encoding()[0]);
                            let object_ref = w->ImmOrOwnedObject_0;
                            lemma_regroup(variant_tag(0), object_ref.encoding(), tail);
                            lemma_tag_split(
                                tag,
                                0,
                                bytes@.skip(at1 as int),
                                object_ref.encoding() + tail,
                            );
                        }
                    }
                    None
                },
            }
        } else if tag == 1 {
            match ObjectID::decode(bytes, at1) {
                Some((id, at2)) => {
                    let v = ObjectArg::SharedObject(id);
                    proof {
                        lemma_join(bytes@, pos as int, at1 as int, at2 as int);
                        assert(v.encoding() == variant_tag(1) + id.encoding());
                    }
                    assert(v.is_readable());
                    Some((v, at2))
                },
                None => {
                    assert forall|w: Self, tail: Seq<u8>| at != #[trigger] (w.encoding()
                        + tail) by {
                        if at == w.encoding() + tail {
                            assert((w.encoding() + tail)[0] == w.encoding()[0]);
                            let id = w->SharedObject_0;
                            lemma_regroup(variant_tag(1), id.encoding(), tail);
                            lemma_tag_split(tag, 1, bytes@.skip(at1 as int), id.encoding() + tail);
                        }
                    }
                    None
                },
            }
        } else {
            assert forall|w: Self, tail: Seq<u8>| at != #[trigger] (w.encoding() + tail) by {
                assert((w.encoding() + tail)[0] == w.encoding()[0]);
                assert(at[0] == tag);
            }
            None
        }
    }
}

impl Encode for Identifier {
    open spec fn encoding(&self) -> Seq<u8> {
        bytes_with_len(self@)
    }

    fn encode(&self, out: &mut Vec<u8>) {
        assert(self.encoding() == bytes_with_len(self@));
        write_bytes(out, self.as_bytes());
    }
}

impl Decode for Identifier {
    open spec fn is_readable(&self) -> bool {
        is_valid_identifier(self@)
    }

    proof fn lemma_split(a: Self, b: Self, ra: Seq<u8>, rb: Seq<u8>) {
        lemma_bytes_split(a@, b@, ra, rb);
    }

    fn decode(bytes: &[u8], pos: usize) -> (r: Option<(Self, usize)>) {
        let ghost at = bytes@.skip(pos as int);
        let (text, next) = match read_bytes(bytes, pos) {
            Some(x) => x,
            None => {
                assert forall|w: Self, tail: Seq<u8>| at != #[trigger] (w.encoding() + tail) by {
                    assert(w.encoding() + tail == bytes_with_len(w@) + tail);
                }
                return None;
            },
        };
        proof {
            lemma_skip_splits(bytes@, pos as int, next as int);
        }
        let ghost held = text@;
        match Identifier::new(text) {
            Some(id) => {
                assert(id.encoding() == bytes_with_len(held));
                assert(id.is_readable());
                Some((id, next))
            },
            None => {
                assert forall|w: Self, tail: Seq<u8>| w.is_readable()
                    implies at != #[trigger] (w.encoding() + tail) by {
                    if at == w.encoding() + tail {
                        lemma_bytes_split(held, w@, bytes@.skip(next as int), tail);
                    }
                }
                None
            },
        }
    }
}

impl Decode for TypeTag {
    open spec fn is_readable(&self) -> bool {
        true
    }

    proof fn lemma_split(a: Self, b: Self, ra: Seq<u8>, rb: Seq<u8>) {
        lemma_bytes_split(a@, b@, ra, rb);
    }

    fn decode(bytes: &[u8], pos: usize) -> (r: Option<(Self, usize)>) {
        let ghost at = bytes@.skip(pos as int);
        match read_bytes(bytes, pos) {
            Some((encoded, next)) => {
                let ghost held = encoded@;
                let tag = TypeTag::from_encoding(encoded);
                assert(tag.encoding() == bytes_with_len(held));
                assert(tag.is_readable());
                Some((tag, next))
            },
            None => {
                assert forall|w: Self, tail: Seq<u8>| at != #[trigger] (w.encoding() + tail) by {
                    assert(w.encoding() + tail == bytes_with_len(w@) + tail);
                }
                None
            },
        }
    }
}

impl Decode for CallArg {
    open spec fn is_readable(&self) -> bool {
        true
    }

    proof fn lemma_split(a: Self, b: Self, ra: Seq<u8>, rb: Seq<u8>) {
        lemma_call_arg_split(a@, b@, ra, rb);
    }

    fn decode(bytes: &[u8], pos: usize) -> (r: Option<(Self, usize)>) {
        let ghost at = bytes@.skip(pos as int);
        let (tag, at1) = match read_tag(bytes, pos) {
            Some(x) => x,
            None => {
                assert forall|w: Self, tail: Seq<u8>| at != #[trigger] (w.encoding() + tail) by {
                    assert(w.encoding() == variant_tag(call_arg_index(w@)) + call_arg_payload(w@));
                    assert(at.len() == 0);
                    assert((w.encoding() + tail).len() > 0);
                }
                return None;
            },
        };
        proof {
            lemma_skip_splits(bytes@, pos as int, at1 as int);
            assert(bytes@.subrange(pos as int, at1 as int) =~= variant_tag(tag));
            assert forall|w: Self, tail: Seq<u8>| at == #[trigger] (w.encoding() + tail)
                implies call_arg_index(w@) == tag && bytes@.skip(at1 as int) == call_arg_payload(w@)
                + tail by {
                assert(w.encoding() == variant_tag(call_arg_index(w@)) + call_arg_payload(w@));
                lemma_regroup(variant_tag(call_arg_index(w@)), call_arg_payload(w@), tail);
                lemma_tag_split(
                    tag,
                    call_arg_index(w@),
                    bytes@.skip(at1 as int),
                    call_arg_payload(w@) + tail,
                );
            }
        }
        if tag == 0 {
            match read_bytes(bytes, at1) {
                Some((pure, at2)) => {
                    let ghost held = pure@;
                    let v = CallArg::Pure(pure);
                    proof {
                        lemma_join(bytes@, pos as int, at1 as int, at2 as int);
                        assert(v.encoding() == variant_tag(0) + bytes_with_len(held));
                    }
                    assert(v.is_readable());
                    Some((v, at2))
                },
                None => {
                    assert forall|w: Self, tail: Seq<u8>| at != #[trigger] (w.encoding()
                        + tail) by {
                        if at == w.encoding() + tail {
                            assert(bytes@.skip(at1 as int) == bytes_with_len(w@->Pure_0) + tail);
                        }
                    }
                    None
                },
            }
        } else if tag == 1 {
            match ObjectArg::decode(bytes, at1) {
                Some((object, at2)) => {
                    let v = CallArg::Object(object);
                    proof {
                        lemma_join(bytes@, pos as int, at1 as int, at2 as int);
                        assert(v.encoding() == variant_tag(1) + object.encoding());
                    }
                    assert(v.is_readable());
                    Some((v, at2))
                },
                None => {
                    assert forall|w: Self, tail: Seq<u8>| at != #[trigger] (w.encoding()
                        + tail) by {
                        if at == w.encoding() + tail {
                            let o = w@->Object_0;
                            assert(bytes@.skip(at1 as int) == o.encoding() + tail);
                        }
                    }
                    None
                },
            }
        } else if tag == 2 {
            match decode_vec::<ObjectArg>(bytes, at1) {
                Some((objects, at2)) => {
                    let ghost held = objects@;
                    let v = CallArg::ObjVec(objects);
                    proof {
                        lemma_join(bytes@, pos as int, at1 as int, at2 as int);
                        lemma_concat_encodings(held, |o: ObjectArg| enc_object_arg(o));
                        assert(v.encoding() =~= variant_tag(2) + (uleb128(held.len())
                            + concat_encodings(held)));
                    }
                    assert(v.is_readable());
                    Some((v, at2))
                },
                None => {
                    assert forall|w: Self, tail: Seq<u8>| at != #[trigger] (w.encoding()
                        + tail) by {
                        if at == w.encoding() + tail {
                            let objects = w->ObjVec_0;
                            lemma_concat_encodings(objects@, |o: ObjectArg| enc_object_arg(o));
                            assert(bytes@.skip(at1 as int) == uleb128(objects@.len())
                                + concat_encodings(objects@) + tail);
                        }
                    }
                    None
                },
            }
        } else {
            None
        }
    }
}

} // verus!
