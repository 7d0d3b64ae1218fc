//! Reading single transactions, kinds and the data of transactions back.

use crate::base_types::{ObjectID, ObjectDigest, ObjectRef, SequenceNumber, SuiAddress};
use crate::codec::{
    bytes_with_len, concat_encodings, encode_option, lemma_concat_encodings, lemma_concat_views,
    u64_le, uleb128, variant_tag, views_of, write_u64, Encode,
};
use crate::framing::{lemma_cancel_tail, lemma_regroup, lemma_uleb128_split};
use crate::move_types::{is_valid_identifier, Identifier, TypeTag};
use crate::reading::{
    all_readable, decode_vec, lemma_items_split, lemma_join, lemma_skip_splits, read_tag, Decode,
};
use crate::transaction::{
    CallArg, CallArgView, ChangeEpoch, MoveCall, MoveModulePublish, Pay, SingleTransactionKind,
    SingleTransactionKindView, TransactionKind, TransferObject, TransferSui,
};
use crate::transaction_data::TransactionData;
use crate::wire::{enc_call_arg, enc_object_ref, enc_single};
use crate::wire_laws::{
    lemma_kind_split, lemma_move_call_split, lemma_pay_split, lemma_publish_split,
    lemma_single_split, lemma_tag_split, lemma_transaction_data_split, single_index,
    single_payload,
};
use vstd::prelude::*;

verus! {

/// The encoding of a sequence: its length, then its items.
pub open spec fn vec_encoding<T: Encode>(v: Seq<T>) -> Seq<u8> {
    uleb128(v.len()) + concat_encodings(v)
}

/// Sequences behind their lengths that give the same bytes have the same encoding.
pub proof fn lemma_vec_split<T: Decode>(a: Seq<T>, b: Seq<T>, ra: Seq<u8>, rb: Seq<u8>)
    requires
        vec_encoding(a) + ra == vec_encoding(b) + rb,
    ensures
        vec_encoding(a) == vec_encoding(b),
        ra == rb,
{
    lemma_regroup(uleb128(a.len()), concat_encodings(a), ra);
    lemma_regroup(uleb128(b.len()), concat_encodings(b), rb);
    lemma_uleb128_split(a.len(), b.len(), concat_encodings(a) + ra, concat_encodings(b) + rb);
    lemma_items_split(a, b, ra, rb);
}

/// Reads a sequence behind its length, as `decode_vec` does, with the result in the
/// words of `vec_encoding`.
pub fn read_vec<T: Decode>(bytes: &[u8], pos: usize) -> (r: Option<(Vec<T>, usize)>)
    requires
        pos <= bytes@.len(),
    ensures
        r matches Some((v, next)) ==> pos <= next <= bytes@.len() && bytes@.subrange(
            pos as int,
            next as int,
        ) == vec_encoding(v@) && all_readable(v@),
        r is None ==> forall|w: Vec<T>, tail: Seq<u8>|
            all_readable(w@) ==> bytes@.skip(pos as int) != #[trigger] (vec_encoding(w@) + tail),
        r is None ==> forall|s: Seq<T>, tail: Seq<u8>|
            all_readable(s) && s.len() <= usize::MAX ==> bytes@.skip(pos as int)
                != #[trigger] (vec_encoding(s) + tail),
{
    decode_vec::<T>(bytes, pos)
}

/// The encoding of a call is the encodings of its parts, one after the other.
pub proof fn lemma_move_call_parts(w: MoveCall)
    ensures
        w.encoding()
            == w.package.encoding()
            + (w.module.encoding()
            + (w.function.encoding()
            + (vec_encoding(w.type_arguments@) + vec_encoding(w.arguments@)))),
{
    lemma_concat_views(w.type_arguments@, |t: Seq<u8>| bytes_with_len(t));
    lemma_concat_views(w.arguments@, |a: CallArgView| enc_call_arg(a));
    assert(views_of(w.type_arguments@).len() == w.type_arguments@.len());
    assert(views_of(w.arguments@).len() == w.arguments@.len());
    assert(w.encoding() =~= w.package.encoding() + (w.module.encoding() + (w.function.encoding()
        + (vec_encoding(w.type_arguments@) + vec_encoding(w.arguments@)))));
}

impl Decode for MoveCall {
    open spec fn is_readable(&self) -> bool {
        is_valid_identifier(self.module@) && is_valid_identifier(self.function@)
    }

    proof fn lemma_split(a: Self, b: Self, ra: Seq<u8>, rb: Seq<u8>) {
        lemma_move_call_split(a@, b@, ra, rb);
    }

    fn decode(bytes: &[u8], pos: usize) -> (r: Option<(Self, usize)>) {
        let ghost at = bytes@.skip(pos as int);
        let (package, at1) = match <(ObjectID, SequenceNumber, ObjectDigest)>::decode(bytes, pos) {
            Some(x) => x,
            None => {
                assert forall|w: Self, tail: Seq<u8>| at != #[trigger] (w.encoding() + tail) by {
                    lemma_move_call_parts(w);
                    assert(w.encoding() + tail =~= w.package.encoding()
                        + (w.module.encoding()
                        + (w.function.encoding()
                        + (vec_encoding(w.type_arguments@) + vec_encoding(w.arguments@))) + tail));
                }
                return None;
            },
        };
        proof {
            lemma_skip_splits(bytes@, pos as int, at1 as int);
            assert forall|w: Self, tail: Seq<u8>| at == #[trigger] (w.encoding() + tail)
                implies bytes@.skip(at1 as int)
                    == w.module.encoding()
                    + (w.function.encoding()
                    + (vec_encoding(w.type_arguments@) + (vec_encoding(w.arguments@) + tail))) by {
                lemma_move_call_parts(w);
                let rest = w.module.encoding() + (w.function.encoding() + (vec_encoding(
                    w.type_arguments@,
                ) + (vec_encoding(w.arguments@) + tail)));
                assert(w.encoding() + tail =~= w.package.encoding() + rest);
                <(ObjectID, SequenceNumber, ObjectDigest)>::lemma_split(
                    package,
                    w.package,
                    bytes@.skip(at1 as int),
                    rest,
                );
            }
        }
        let (module, at2) = match Identifier::decode(bytes, at1) {
            Some(x) => x,
            None => {
                assert forall|w: Self, tail: Seq<u8>| w.is_readable()
                    implies at != #[trigger] (w.encoding() + tail) by {
                    if at == w.encoding() + tail {
                        assert(w.module.is_readable());
                    }
                }
                return None;
            },
        };
        proof {
            lemma_skip_splits(bytes@, at1 as int, at2 as int);
            assert forall|w: Self, tail: Seq<u8>| at == #[trigger] (w.encoding() + tail)
                implies bytes@.skip(at2 as int)
                    == w.function.encoding()
                    + (vec_encoding(w.type_arguments@) + (vec_encoding(w.arguments@) + tail)) by {
                Identifier::lemma_split(
                    module,
                    w.module,
                    bytes@.skip(at2 as int),
                    w.function.encoding() + (vec_encoding(w.type_arguments@) + (vec_encoding(
                        w.arguments@,
                    ) + tail)),
                );
            }
        }
        let (function, at3) = match Identifier::decode(bytes, at2) {
            Some(x) => x,
            None => {
                assert forall|w: Self, tail: Seq<u8>| w.is_readable()
                    implies at != #[trigger] (w.encoding() + tail) by {
                    if at == w.encoding() + tail {
                        assert(w.function.is_readable());
                    }
                }
                return None;
            },
        };
        proof {
            lemma_skip_splits(bytes@, at2 as int, at3 as int);
            assert forall|w: Self, tail: Seq<u8>| at == #[trigger] (w.encoding() + tail)
                implies bytes@.skip(at3 as int)
                    == vec_encoding(w.type_arguments@) + (vec_encoding(w.arguments@) + tail) by {
                Identifier::lemma_split(
                    function,
                    w.function,
                    bytes@.skip(at3 as int),
                    vec_encoding(w.type_arguments@) + (vec_encoding(w.arguments@) + tail),
                );
            }
        }
        let (type_arguments, at4) = match read_vec::<TypeTag>(bytes, at3) {
            Some(x) => x,
            None => {
                assert forall|w: Self, tail: Seq<u8>| w.is_readable()
                    implies at != #[trigger] (w.encoding() + tail) by {
                    if at == w.encoding() + tail {
                        assert(all_readable(w.type_arguments@));
                        assert(bytes@.skip(at3 as int)
                            == vec_encoding(w.type_arguments@)
                            + (vec_encoding(w.arguments@) + tail));
                    }
                }
                return None;
            },
        };
        proof {
            lemma_skip_splits(bytes@, at3 as int, at4 as int);
            assert forall|w: Self, tail: Seq<u8>| at == #[trigger] (w.encoding() + tail)
                implies bytes@.skip(at4 as int) == vec_encoding(w.arguments@) + tail by {
                lemma_vec_split(
                    type_arguments@,
                    w.type_arguments@,
                    bytes@.skip(at4 as int),
                    vec_encoding(w.arguments@) + tail,
                );
            }
        }
        let (arguments, at5) = match read_vec::<CallArg>(bytes, at4) {
            Some(x) => x,
            None => {
                assert forall|w: Self, tail: Seq<u8>| w.is_readable()
                    implies at != #[trigger] (w.encoding() + tail) by {
                    if at == w.encoding() + tail {
                        assert(all_readable(w.arguments@));
                        assert(bytes@.skip(at4 as int) == vec_encoding(w.arguments@) + tail);
                    }
                }
                return None;
            },
        };
        let v = MoveCall { package, module, function, type_arguments, arguments };
        proof {
            lemma_move_call_parts(v);
            lemma_join(bytes@, at3 as int, at4 as int, at5 as int);
            lemma_join(bytes@, at2 as int, at3 as int, at5 as int);
            lemma_join(bytes@, at1 as int, at2 as int, at5 as int);
            lemma_join(bytes@, pos as int, at1 as int, at5 as int);
        }
        assert(v.is_readable());
        Some((v, at5))
    }
}

impl Decode for MoveModulePublish {
    open spec fn is_readable(&self) -> bool {
        true
    }

    proof fn lemma_split(a: Self, b: Self, ra: Seq<u8>, rb: Seq<u8>) {
        lemma_publish_split(a@, b@, ra, rb);
        lemma_cancel_tail(a.encoding(), b.encoding(), ra);
    }

    /// Reads the bytes of the modules. What the message layer reads of the modules is
    /// not encoded: it is left empty, for the caller to fill in.
    fn decode(bytes: &[u8], pos: usize) -> (r: Option<(Self, usize)>) {
        let ghost at = bytes@.skip(pos as int);
        match read_vec::<Vec<u8>>(bytes, pos) {
            Some((modules, next)) => {
                let v = MoveModulePublish { modules, compiled: Vec::new() };
                proof {
                    lemma_concat_views(v.modules@, |m: Seq<u8>| bytes_with_len(m));
                    assert(views_of(v.modules@).len() == v.modules@.len());
                    assert(v.encoding() =~= vec_encoding(v.modules@));
                }
                assert(v.is_readable());
                Some((v, next))
            },
            None => {
                assert forall|w: Self, tail: Seq<u8>| at != #[trigger] (w.encoding() + tail) by {
                    lemma_concat_views(w.modules@, |m: Seq<u8>| bytes_with_len(m));
                    assert(views_of(w.modules@).len() == w.modules@.len());
                    assert(w.encoding() + tail =~= vec_encoding(w.modules@) + tail);
                    assert(all_readable(w.modules@));
                }
                None
            },
        }
    }
}

/// The encoding of a payment is the encodings of its lists, one after the other.
pub proof fn lemma_pay_parts(w: Pay)
    ensures
        w.encoding() == vec_encoding(w.coins@) + (vec_encoding(w.recipients@) + vec_encoding(
            w.amounts@,
        )),
{
    lemma_concat_encodings(w.coins@, |r: ObjectRef| enc_object_ref(r));
    lemma_concat_encodings(w.recipients@, |a: SuiAddress| a.0@);
    lemma_concat_encodings(w.amounts@, |n: u64| u64_le(n));
    assert(w.encoding() =~= vec_encoding(w.coins@) + (vec_encoding(w.recipients@) + vec_encoding(
        w.amounts@,
    )));
}

impl Decode for Pay {
    open spec fn is_readable(&self) -> bool {
        true
    }

    proof fn lemma_split(a: Self, b: Self, ra: Seq<u8>, rb: Seq<u8>) {
        lemma_pay_split(a@, b@, ra, rb);
    }

    fn decode(bytes: &[u8], pos: usize) -> (r: Option<(Self, usize)>) {
        let ghost at = bytes@.skip(pos as int);
        let (coins, at1) = match read_vec::<(ObjectID, SequenceNumber, ObjectDigest)>(bytes, pos) {
            Some(x) => x,
            None => {
                assert forall|w: Self, tail: Seq<u8>| at != #[trigger] (w.encoding() + tail) by {
                    lemma_pay_parts(w);
                    assert(all_readable(w.coins@));
                    assert(w.encoding() + tail =~= vec_encoding(w.coins@) + (vec_encoding(
                        w.recipients@,
                    ) + vec_encoding(w.amounts@) + tail));
                }
                return None;
            },
        };
        proof {
            lemma_skip_splits(bytes@, pos as int, at1 as int);
            assert forall|w: Self, tail: Seq<u8>| at == #[trigger] (w.encoding() + tail)
                implies bytes@.skip(at1 as int)
                    == vec_encoding(w.recipients@) + (vec_encoding(w.amounts@) + tail) by {
                lemma_pay_parts(w);
                let rest = vec_encoding(w.recipients@) + (vec_encoding(w.amounts@) + tail);
                assert(w.encoding() + tail =~= vec_encoding(w.coins@) + rest);
                lemma_vec_split(coins@, w.coins@, bytes@.skip(at1 as int), rest);
            }
        }
        let (recipients, at2) = match read_vec::<SuiAddress>(bytes, at1) {
            Some(x) => x,
            None => {
                assert forall|w: Self, tail: Seq<u8>| at != #[trigger] (w.encoding() + tail) by {
                    if at == w.encoding() + tail {
                        assert(all_readable(w.recipients@));
                        assert(bytes@.skip(at1 as int)
                            == vec_encoding(w.recipients@) + (vec_encoding(w.amounts@) + tail));
                    }
                }
                return None;
            },
        };
        proof {
            lemma_skip_splits(bytes@, at1 as int, at2 as int);
            assert forall|w: Self, tail: Seq<u8>| at == #[trigger] (w.encoding() + tail)
                implies bytes@.skip(at2 as int) == vec_encoding(w.amounts@) + tail by {
                lemma_vec_split(
                    recipients@,
                    w.recipients@,
                    bytes@.skip(at2 as int),
                    vec_encoding(w.amounts@) + tail,
                );
            }
        }
        let (amounts, at3) = match read_vec::<u64>(bytes, at2) {
            Some(x) => x,
            None => {
                assert forall|w: Self, tail: Seq<u8>| at != #[trigger] (w.encoding() + tail) by {
                    if at == w.encoding() + tail {
                        assert(all_readable(w.amounts@));
                        assert(bytes@.skip(at2 as int) == vec_encoding(w.amounts@) + tail);
                    }
                }
                return None;
            },
        };
        let v = Pay { coins, recipients, amounts };
        proof {
            lemma_pay_parts(v);
            lemma_join(bytes@, at1 as int, at2 as int, at3 as int);
            lemma_join(bytes@, pos as int, at1 as int, at3 as int);
        }
        assert(v.is_readable());
        Some((v, at3))
    }
}

impl Encode for TransferObject {
    open spec fn encoding(&self) -> Seq<u8> {
        self.recipient.0@ + enc_object_ref(self.object_ref)
    }

    fn encode(&self, out: &mut Vec<u8>) {
        assert(self.encoding() == self.recipient.0@ + enc_object_ref(self.object_ref));
        let ghost start = out@;
        self.recipient.encode(out);
        self.object_ref.encode(out);
        assert(out@ =~= start + self.encoding());
    }
}

impl Decode for TransferObject {
    open spec fn is_readable(&self) -> bool {
        true
    }

    proof fn lemma_split(a: Self, b: Self, ra: Seq<u8>, rb: Seq<u8>) {
        lemma_regroup(a.recipient.0@, enc_object_ref(a.object_ref), ra);
        lemma_regroup(b.recipient.0@, enc_object_ref(b.object_ref), rb);
        SuiAddress::lemma_split(
            a.recipient,
            b.recipient,
            enc_object_ref(a.object_ref) + ra,
            enc_object_ref(b.object_ref) + rb,
        );
        <(ObjectID, SequenceNumber, ObjectDigest)>::lemma_split(a.object_ref, b.object_ref, ra, rb);
    }

    fn decode(bytes: &[u8], pos: usize) -> (r: Option<(Self, usize)>) {
        let ghost at = bytes@.skip(pos as int);
        let (recipient, at1) = match SuiAddress::decode(bytes, pos) {
            Some(x) => x,
            None => {
                assert forall|w: Self, tail: Seq<u8>| at != #[trigger] (w.encoding() + tail) by {
                    assert(w.encoding() + tail =~= w.recipient.encoding()
                        + (w.object_ref.encoding() + tail));
                }
                return None;
            },
        };
        proof {
            lemma_skip_splits(bytes@, pos as int, at1 as int);
        }
        match <(ObjectID, SequenceNumber, ObjectDigest)>::decode(bytes, at1) {
            Some((object_ref, at2)) => {
                let v = TransferObject { recipient, object_ref };
                proof {
                    lemma_join(bytes@, pos as int, at1 as int, at2 as int);
                    assert(v.encoding() == recipient.encoding() + object_ref.encoding());
                }
                assert(v.is_readable());
                Some((v, at2))
            },
            None => {
                assert forall|w: Self, tail: Seq<u8>| at != #[trigger] (w.encoding() + tail) by {
                    if at == w.encoding() + tail {
                        let rest = w.object_ref.encoding() + tail;
                        assert(w.encoding() + tail =~= w.recipient.encoding() + rest);
                        SuiAddress::lemma_split(
                            recipient,
                            w.recipient,
                            bytes@.skip(at1 as int),
                            rest,
                        );
                    }
                }
                None
            },
        }
    }
}

impl Encode for TransferSui {
    open spec fn encoding(&self) -> Seq<u8> {
        self.recipient.0@ + encode_option(self.amount, |n: u64| u64_le(n))
    }

    fn encode(&self, out: &mut Vec<u8>) {
        assert(self.encoding() == self.recipient.0@
            + encode_option(self.amount, |n: u64| u64_le(n)));
        let ghost start = out@;
        self.recipient.encode(out);
        match self.amount {
            None => {
                out.push(0);
            },
            Some(n) => {
                out.push(1);
                write_u64(out, n);
            },
        }
        assert(out@ =~= start + self.encoding());
    }
}

/// The encoding of an optional number starts with a byte that says whether the number
/// is there.
pub open spec fn amount_encoding(amount: Option<u64>) -> Seq<u8> {
    encode_option(amount, |n: u64| u64_le(n))
}

impl Decode for TransferSui {
    open spec fn is_readable(&self) -> bool {
        true
    }

    proof fn lemma_split(a: Self, b: Self, ra: Seq<u8>, rb: Seq<u8>) {
        lemma_regroup(a.recipient.0@, amount_encoding(a.amount), ra);
        lemma_regroup(b.recipient.0@, amount_encoding(b.amount), rb);
        SuiAddress::lemma_split(
            a.recipient,
            b.recipient,
            amount_encoding(a.amount) + ra,
            amount_encoding(b.amount) + rb,
        );
        crate::framing::lemma_u64_unambiguous();
        crate::framing::lemma_option_split(a.amount, b.amount, ra, rb, |n: u64| u64_le(n));
    }

    fn decode(bytes: &[u8], pos: usize) -> (r: Option<(Self, usize)>) {
        let ghost at = bytes@.skip(pos as int);
        let (recipient, at1) = match SuiAddress::decode(bytes, pos) {
            Some(x) => x,
            None => {
                assert forall|w: Self, tail: Seq<u8>| at != #[trigger] (w.encoding() + tail) by {
                    assert(w.encoding() + tail =~= w.recipient.encoding() + (amount_encoding(
                        w.amount,
                    ) + tail));
                }
                return None;
            },
        };
        proof {
            lemma_skip_splits(bytes@, pos as int, at1 as int);
            assert forall|w: Self, tail: Seq<u8>| at == #[trigger] (w.encoding() + tail)
                implies bytes@.skip(at1 as int) == amount_encoding(w.amount) + tail by {
                let rest = amount_encoding(w.amount) + tail;
                assert(w.encoding() + tail =~= w.recipient.encoding() + rest);
                SuiAddress::lemma_split(recipient, w.recipient, bytes@.skip(at1 as int), rest);
            }
        }
        let (flag, at2) = match read_tag(bytes, at1) {
            Some(x) => x,
            None => {
                assert forall|w: Self, tail: Seq<u8>| at != #[trigger] (w.encoding() + tail) by {
                    if at == w.encoding() + tail {
                        assert(amount_encoding(w.amount).len() > 0);
                    }
                }
                return None;
            },
        };
        proof {
            lemma_skip_splits(bytes@, at1 as int, at2 as int);
            assert(bytes@.subrange(at1 as int, at2 as int) =~= seq![flag]);
        }
        if flag == 0 {
            let v = TransferSui { recipient, amount: None };
            proof {
                lemma_join(bytes@, pos as int, at1 as int, at2 as int);
                assert(v.encoding() == recipient.encoding() + seq![0u8]);
            }
            assert(v.is_readable());
            Some((v, at2))
        } else if flag == 1 {
            match u64::decode(bytes, at2) {
                Some((n, at3)) => {
                    let v = TransferSui { recipient, amount: Some(n) };
                    proof {
                        lemma_join(bytes@, at1 as int, at2 as int, at3 as int);
                        lemma_join(bytes@, pos as int, at1 as int, at3 as int);
                        assert(v.encoding() == recipient.encoding() + (seq![1u8] + n.encoding()));
                    }
                    assert(v.is_readable());
                    Some((v, at3))
                },
                None => {
                    assert forall|w: Self, tail: Seq<u8>| at != #[trigger] (w.encoding()
                        + tail) by {
                        if at == w.encoding() + tail {
                            assert((amount_encoding(w.amount) + tail)[0] == amount_encoding(
                                w.amount,
                            )[0]);
                            let n = w.amount->0;
                            lemma_regroup(seq![1u8], n.encoding(), tail);
                            crate::framing::lemma_same_length_split(
                                seq![flag],
                                seq![1u8],
                                bytes@.skip(at2 as int),
                                n.encoding() + tail,
                            );
                        }
                    }
                    None
                },
            }
        } else {
            assert forall|w: Self, tail: Seq<u8>| at != #[trigger] (w.encoding() + tail) by {
                if at == w.encoding() + tail {
                    assert((amount_encoding(w.amount) + tail)[0] == amount_encoding(w.amount)[0]);
                    assert(bytes@.skip(at1 as int)[0] == flag);
                }
            }
            None
        }
    }
}

impl Encode for ChangeEpoch {
    open spec fn encoding(&self) -> Seq<u8> {
        u64_le(self.epoch) + u64_le(self.storage_charge) + u64_le(self.computation_charge)
    }

    fn encode(&self, out: &mut Vec<u8>) {
        assert(self.encoding() == u64_le(self.epoch) + u64_le(self.storage_charge)
            + u64_le(self.computation_charge));
        let ghost start = out@;
        write_u64(out, self.epoch);
        write_u64(out, self.storage_charge);
        write_u64(out, self.computation_charge);
        assert(out@ =~= start + self.encoding());
    }
}

impl Decode for ChangeEpoch {
    open spec fn is_readable(&self) -> bool {
        true
    }

    proof fn lemma_split(a: Self, b: Self, ra: Seq<u8>, rb: Seq<u8>) {
        let ta = u64_le(a.storage_charge) + (u64_le(a.computation_charge) + ra);
        let tb = u64_le(b.storage_charge) + (u64_le(b.computation_charge) + rb);
        assert(a.encoding() + ra =~= u64_le(a.epoch) + ta);
        assert(b.encoding() + rb =~= u64_le(b.epoch) + tb);
        crate::framing::lemma_u64_split(a.epoch, b.epoch, ta, tb);
        crate::framing::lemma_u64_split(
            a.storage_charge,
            b.storage_charge,
            u64_le(a.computation_charge) + ra,
            u64_le(b.computation_charge) + rb,
        );
        crate::framing::lemma_u64_split(a.computation_charge, b.computation_charge, ra, rb);
    }

    fn decode(bytes: &[u8], pos: usize) -> (r: Option<(Self, usize)>) {
        let ghost at = bytes@.skip(pos as int);
        let (epoch, at1) = match u64::decode(bytes, pos) {
            Some(x) => x,
            None => {
                assert forall|w: Self, tail: Seq<u8>| at != #[trigger] (w.encoding() + tail) by {
                    assert(w.encoding() + tail =~= w.epoch.encoding()
                        + (w.storage_charge.encoding() + (w.computation_charge.encoding() + tail)));
                }
                return None;
            },
        };
        proof {
            lemma_skip_splits(bytes@, pos as int, at1 as int);
            assert forall|w: Self, tail: Seq<u8>| at == #[trigger] (w.encoding() + tail)
                implies bytes@.skip(at1 as int)
                    == w.storage_charge.encoding() + (w.computation_charge.encoding() + tail) by {
                let rest = w.storage_charge.encoding() + (w.computation_charge.encoding() + tail);
                assert(w.encoding() + tail =~= w.epoch.encoding() + rest);
                u64::lemma_split(epoch, w.epoch, bytes@.skip(at1 as int), rest);
            }
        }
        let (storage_charge, at2) = match u64::decode(bytes, at1) {
            Some(x) => x,
            None => {
                return None;
            },
        };
        proof {
            lemma_skip_splits(bytes@, at1 as int, at2 as int);
            assert forall|w: Self, tail: Seq<u8>| at == #[trigger] (w.encoding() + tail)
                implies bytes@.skip(at2 as int) == w.computation_charge.encoding() + tail by {
                u64::lemma_split(
                    storage_charge,
                    w.storage_charge,
                    bytes@.skip(at2 as int),
                    w.computation_charge.encoding() + tail,
                );
            }
        }
        let (computation_charge, at3) = match u64::decode(bytes, at2) {
            Some(x) => x,
            None => {
                return None;
            },
        };
        let v = ChangeEpoch { epoch, storage_charge, computation_charge };
        proof {
            lemma_join(bytes@, at1 as int, at2 as int, at3 as int);
            lemma_join(bytes@, pos as int, at1 as int, at3 as int);
            assert(v.encoding() =~= epoch.encoding() + (storage_charge.encoding()
                + computation_charge.encoding()));
        }
        assert(v.is_readable());
        Some((v, at3))
    }
}

impl Decode for SingleTransactionKind {
    open spec fn is_readable(&self) -> bool {
        self matches SingleTransactionKind::Call(c) ==> c.is_readable()
    }

    proof fn lemma_split(a: Self, b: Self, ra: Seq<u8>, rb: Seq<u8>) {
        lemma_single_split(a@, b@, ra, rb);
        lemma_cancel_tail(a.encoding(), b.encoding(), ra);
    }

    fn decode(bytes: &[u8], pos: usize) -> (r: Option<(Self, usize)>) {
        let ghost at = bytes@.skip(pos as int);
        let (tag, at1) = match read_tag(bytes, pos) {
            Some(x) => x,
            None => {
                assert forall|w: Self, tail: Seq<u8>| at != #[trigger] (w.encoding() + tail) by {
                    assert(w.encoding() == variant_tag(single_index(w@)) + single_payload(w@));
                    assert(at.len() == 0);
                    assert((w.encoding() + tail).len() > 0);
                }
                return None;
            },
        };
        proof {
            lemma_skip_splits(bytes@, pos as int, at1 as int);
            assert(bytes@.subrange(pos as int, at1 as int) =~= variant_tag(tag));
            assert forall|w: Self, tail: Seq<u8>| at == #[trigger] (w.encoding() + tail)
                implies single_index(w@) == tag && bytes@.skip(at1 as int) == single_payload(w@)
                + tail by {
                assert(w.encoding() == variant_tag(single_index(w@)) + single_payload(w@));
                lemma_regroup(variant_tag(single_index(w@)), single_payload(w@), tail);
                lemma_tag_split(
                    tag,
                    single_index(w@),
                    bytes@.skip(at1 as int),
                    single_payload(w@) + tail,
                );
            }
        }
        if tag == 0 {
            match TransferObject::decode(bytes, at1) {
                Some((t, at2)) => {
                    let v = SingleTransactionKind::TransferObject(t);
                    proof {
                        lemma_join(bytes@, pos as int, at1 as int, at2 as int);
                        assert(v.encoding() == variant_tag(0) + t.encoding());
                    }
                    assert(v.is_readable());
                    Some((v, at2))
                },
                None => {
                    assert forall|w: Self, tail: Seq<u8>| at != #[trigger] (w.encoding()
                        + tail) by {
                        if at == w.encoding() + tail {
                            let t = w->TransferObject_0;
                            assert(bytes@.skip(at1 as int) == t.encoding() + tail);
                        }
                    }
                    None
                },
            }
        } else if tag == 1 {
            match MoveModulePublish::decode(bytes, at1) {
                Some((p, at2)) => {
                    let ghost held = p.encoding();
                    let v = SingleTransactionKind::Publish(p);
                    proof {
                        lemma_join(bytes@, pos as int, at1 as int, at2 as int);
                        assert(v.encoding() == variant_tag(1) + held);
                    }
                    assert(v.is_readable());
                    Some((v, at2))
                },
                None => {
                    assert forall|w: Self, tail: Seq<u8>| at != #[trigger] (w.encoding()
                        + tail) by {
                        if at == w.encoding() + tail {
                            let p = w->Publish_0;
                            assert(bytes@.skip(at1 as int) == p.encoding() + tail);
                        }
                    }
                    None
                },
            }
        } else if tag == 2 {
            match MoveCall::decode(bytes, at1) {
                Some((c, at2)) => {
                    let ghost held = c.encoding();
                    let v = SingleTransactionKind::Call(c);
                    proof {
                        lemma_join(bytes@, pos as int, at1 as int, at2 as int);
                        assert(v.encoding() == variant_tag(2) + held);
                    }
                    assert(v.is_readable());
                    Some((v, at2))
                },
                None => {
                    assert forall|w: Self, tail: Seq<u8>| w.is_readable()
                        implies at != #[trigger] (w.encoding() + tail) by {
                        if at == w.encoding() + tail {
                            let c = w->Call_0;
                            assert(c.is_readable());
                            assert(bytes@.skip(at1 as int) == c.encoding() + tail);
                        }
                    }
                    None
                },
            }
        } else if tag == 3 {
            match TransferSui::decode(bytes, at1) {
                Some((t, at2)) => {
                    let v = SingleTransactionKind::TransferSui(t);
                    proof {
                        lemma_join(bytes@, pos as int, at1 as int, at2 as int);
                        assert(v.encoding() == variant_tag(3) + t.encoding());
                    }
                    assert(v.is_readable());
                    Some((v, at2))
                },
                None => {
                    assert forall|w: Self, tail: Seq<u8>| at != #[trigger] (w.encoding()
                        + tail) by {
                        if at == w.encoding() + tail {
                            let t = w->TransferSui_0;
                            assert(bytes@.skip(at1 as int) == t.encoding() + tail);
                        }
                    }
                    None
                },
            }
        } else if tag == 4 {
            match Pay::decode(bytes, at1) {
                Some((p, at2)) => {
                    let ghost held = p.encoding();
                    let v = SingleTransactionKind::Pay(p);
                    proof {
                        lemma_join(bytes@, pos as int, at1 as int, at2 as int);
                        assert(v.encoding() == variant_tag(4) + held);
                    }
                    assert(v.is_readable());
                    Some((v, at2))
                },
                None => {
                    assert forall|w: Self, tail: Seq<u8>| at != #[trigger] (w.encoding()
                        + tail) by {
                        if at == w.encoding() + tail {
                            let p = w->Pay_0;
                            assert(bytes@.skip(at1 as int) == p.encoding() + tail);
                        }
                    }
                    None
                },
            }
        } else if tag == 5 {
            match ChangeEpoch::decode(bytes, at1) {
                Some((e, at2)) => {
                    let v = SingleTransactionKind::ChangeEpoch(e);
                    proof {
                        lemma_join(bytes@, pos as int, at1 as int, at2 as int);
                        assert(v.encoding() =~= variant_tag(5) + e.encoding());
                    }
                    assert(v.is_readable());
                    Some((v, at2))
                },
                None => {
                    assert forall|w: Self, tail: Seq<u8>| at != #[trigger] (w.encoding()
                        + tail) by {
                        if at == w.encoding() + tail {
                            let e = w->ChangeEpoch_0;
                            assert(single_payload(w@) =~= e.encoding());
                            assert(bytes@.skip(at1 as int) == e.encoding() + tail);
                        }
                    }
                    None
                },
            }
        } else {
            None
        }
    }
}

/// The encoding of a batch is that of the sequence of its transactions.
pub proof fn lemma_batch_parts(b: Seq<SingleTransactionKind>)
    ensures
        crate::codec::encode_seq(views_of(b), |s: SingleTransactionKindView| enc_single(s))
            == vec_encoding(b),
{
    lemma_concat_views(b, |s: SingleTransactionKindView| enc_single(s));
    assert(views_of(b).len() == b.len());
}

impl Decode for TransactionKind {
    open spec fn is_readable(&self) -> bool {
        match self {
            TransactionKind::Single(s) => s.is_readable(),
            TransactionKind::Batch(b) => all_readable(b@),
        }
    }

    proof fn lemma_split(a: Self, b: Self, ra: Seq<u8>, rb: Seq<u8>) {
        lemma_kind_split(a@, b@, ra, rb);
        lemma_cancel_tail(a.encoding(), b.encoding(), ra);
    }

    fn decode(bytes: &[u8], pos: usize) -> (r: Option<(Self, usize)>) {
        let ghost at = bytes@.skip(pos as int);
        let (tag, at1) = match read_tag(bytes, pos) {
            Some(x) => x,
            None => {
                assert forall|w: Self, tail: Seq<u8>| at != #[trigger] (w.encoding() + tail) by {
                    assert(w.encoding().len() > 0);
                    assert(at.len() == 0);
                    assert((w.encoding() + tail).len() > 0);
                }
                return None;
            },
        };
        proof {
            lemma_skip_splits(bytes@, pos as int, at1 as int);
            assert(bytes@.subrange(pos as int, at1 as int) =~= variant_tag(tag));
        }
        if tag == 0 {
            match SingleTransactionKind::decode(bytes, at1) {
                Some((s, at2)) => {
                    let ghost held = s.encoding();
                    let v = TransactionKind::Single(s);
                    proof {
                        lemma_join(bytes@, pos as int, at1 as int, at2 as int);
                        assert(v.encoding() == variant_tag(0) + held);
                    }
                    assert(v.is_readable());
                    Some((v, at2))
                },
                None => {
                    assert forall|w: Self, tail: Seq<u8>| w.is_readable()
                        implies at != #[trigger] (w.encoding() + tail) by {
                        if at == w.encoding() + tail {
                            assert((w.encoding() + tail)[0] == w.encoding()[0]);
                            let s = w->Single_0;
                            lemma_regroup(variant_tag(0), s.encoding(), tail);
                            lemma_tag_split(tag, 0, bytes@.skip(at1 as int), s.encoding() + tail);
                        }
                    }
                    None
                },
            }
        } else if tag == 1 {
            match read_vec::<SingleTransactionKind>(bytes, at1) {
                Some((b, at2)) => {
                    let ghost held = b@;
                    let v = TransactionKind::Batch(b);
                    proof {
                        lemma_join(bytes@, pos as int, at1 as int, at2 as int);
                        lemma_batch_parts(held);
                        assert(v.encoding() == variant_tag(1) + vec_encoding(held));
                    }
                    assert(v.is_readable());
                    Some((v, at2))
                },
                None => {
                    assert forall|w: Self, tail: Seq<u8>| w.is_readable()
                        implies at != #[trigger] (w.encoding() + tail) by {
                        if at == w.encoding() + tail {
                            assert((w.encoding() + tail)[0] == w.encoding()[0]);
                            let b = w->Batch_0;
                            lemma_batch_parts(b@);
                            lemma_regroup(variant_tag(1), vec_encoding(b@), tail);
                            lemma_tag_split(tag, 1, bytes@.skip(at1 as int), vec_encoding(b@)
                                + tail);
                        }
                    }
                    None
                },
            }
        } else {
            assert forall|w: Self, tail: Seq<u8>| at != #[trigger] (w.encoding() + tail) by {
                assert((w.encoding() + tail)[0] == w.encoding()[0]);
                assert(at[0] == tag);
            }
            None
        }
    }
}

/// The encoding of the data of a transaction is the encodings of its parts, one after
/// the other.
pub proof fn lemma_transaction_data_parts(w: TransactionData)
    ensures
        w.encoding()
            == w.kind.encoding()
            + (w.sender.encoding()
            + (w.gas_payment.encoding() + (w.gas_price.encoding() + w.gas_budget.encoding()))),
{
    assert(w.encoding() =~= w.kind.encoding() + (w.sender.encoding() + (w.gas_payment.encoding()
        + (w.gas_price.encoding() + w.gas_budget.encoding()))));
}

impl Decode for TransactionData {
    open spec fn is_readable(&self) -> bool {
        self.kind.is_readable()
    }

    proof fn lemma_split(a: Self, b: Self, ra: Seq<u8>, rb: Seq<u8>) {
        lemma_transaction_data_split(a@, b@, ra, rb);
        lemma_cancel_tail(a.encoding(), b.encoding(), ra);
    }

    fn decode(bytes: &[u8], pos: usize) -> (r: Option<(Self, usize)>) {
        let ghost at = bytes@.skip(pos as int);
        let (kind, at1) = match TransactionKind::decode(bytes, pos) {
            Some(x) => x,
            None => {
                assert forall|w: Self, tail: Seq<u8>| w.is_readable()
                    implies at != #[trigger] (w.encoding() + tail) by {
                    lemma_transaction_data_parts(w);
                    assert(w.encoding() + tail =~= w.kind.encoding()
                        + (w.sender.encoding()
                        + (w.gas_payment.encoding()
                        + (w.gas_price.encoding() + w.gas_budget.encoding())) + tail));
                }
                return None;
            },
        };
        proof {
            lemma_skip_splits(bytes@, pos as int, at1 as int);
            assert forall|w: Self, tail: Seq<u8>| at == #[trigger] (w.encoding() + tail)
                implies bytes@.skip(at1 as int) == w.sender.encoding() + (w.gas_payment.encoding()
                + (w.gas_price.encoding() + (w.gas_budget.encoding() + tail))) by {
                lemma_transaction_data_parts(w);
                let rest = w.sender.encoding()
                    + (w.gas_payment.encoding()
                    + (w.gas_price.encoding() + (w.gas_budget.encoding() + tail)));
                assert(w.encoding() + tail =~= w.kind.encoding() + rest);
                TransactionKind::lemma_split(kind, w.kind, bytes@.skip(at1 as int), rest);
            }
        }
        let (sender, at2) = match SuiAddress::decode(bytes, at1) {
            Some(x) => x,
            None => {
                return None;
            },
        };
        proof {
            lemma_skip_splits(bytes@, at1 as int, at2 as int);
            assert forall|w: Self, tail: Seq<u8>| at == #[trigger] (w.encoding() + tail)
                implies bytes@.skip(at2 as int)
                    == w.gas_payment.encoding()
                    + (w.gas_price.encoding() + (w.gas_budget.encoding() + tail)) by {
                SuiAddress::lemma_split(
                    sender,
                    w.sender,
                    bytes@.skip(at2 as int),
                    w.gas_payment.encoding() + (w.gas_price.encoding() + (w.gas_budget.encoding()
                        + tail)),
                );
            }
        }
        let (gas_payment, at3) = match <(ObjectID, SequenceNumber, ObjectDigest)>::decode(bytes,
            at2) {
            Some(x) => x,
            None => {
                return None;
            },
        };
        proof {
            lemma_skip_splits(bytes@, at2 as int, at3 as int);
            assert forall|w: Self, tail: Seq<u8>| at == #[trigger] (w.encoding() + tail)
                implies bytes@.skip(at3 as int)
                    == w.gas_price.encoding() + (w.gas_budget.encoding() + tail) by {
                <(ObjectID, SequenceNumber, ObjectDigest)>::lemma_split(
                    gas_payment,
                    w.gas_payment,
                    bytes@.skip(at3 as int),
                    w.gas_price.encoding() + (w.gas_budget.encoding() + tail),
                );
            }
        }
        let (gas_price, at4) = match u64::decode(bytes, at3) {
            Some(x) => x,
            None => {
                return None;
            },
        };
        proof {
            lemma_skip_splits(bytes@, at3 as int, at4 as int);
            assert forall|w: Self, tail: Seq<u8>| at == #[trigger] (w.encoding() + tail)
                implies bytes@.skip(at4 as int) == w.gas_budget.encoding() + tail by {
                u64::lemma_split(
                    gas_price,
                    w.gas_price,
                    bytes@.skip(at4 as int),
                    w.gas_budget.encoding() + tail,
                );
            }
        }
        let (gas_budget, at5) = match u64::decode(bytes, at4) {
            Some(x) => x,
            None => {
                return None;
            },
        };
        let v = TransactionData { kind, sender, gas_payment, gas_price, gas_budget };
        proof {
            lemma_transaction_data_parts(v);
            lemma_join(bytes@, at3 as int, at4 as int, at5 as int);
            lemma_join(bytes@, at2 as int, at3 as int, at5 as int);
            lemma_join(bytes@, at1 as int, at2 as int, at5 as int);
            lemma_join(bytes@, pos as int, at1 as int, at5 as int);
        }
        assert(v.is_readable());
        Some((v, at5))
    }
}

} // verus!
