//! The canonical encoding of the transaction data model. Variants are numbered in the
//! order of their declaration.

use crate::base64::{base64_text, Base64};
use crate::base_types::{ObjectDigest, ObjectID, ObjectRef, SequenceNumber, SuiAddress};
use crate::codec::{
    bytes_with_len, encode_option, encode_seq, encode_vec, lemma_concat_encodings,
    lemma_concat_views, u64_le, variant_tag, views_of, write_bytes, write_raw, write_tag,
    write_u64, Encode,
};
use crate::move_types::TypeTag;
use crate::transaction::{
    CallArg, CallArgView, ChangeEpoch, MoveCall, MoveCallView, MoveModulePublish,
    MoveModulePublishView, ObjectArg, Pay, PayView, SingleTransactionKind,
    SingleTransactionKindView, TransactionKind, TransactionKindView, TransferObject, TransferSui,
};
use crate::transaction_data::{TransactionData, TransactionDataView};
use vstd::prelude::*;

verus! {

/// The encoding of an object reference: identifier, version, digest.
pub open spec fn enc_object_ref(r: ObjectRef) -> Seq<u8> {
    r.0.0@ + u64_le(r.1.0) + r.2.0@
}

/// The encoding of an object argument.
pub open spec fn enc_object_arg(o: ObjectArg) -> Seq<u8> {
    match o {
        ObjectArg::ImmOrOwnedObject(r) => variant_tag(0) + enc_object_ref(r),
        ObjectArg::SharedObject(id) => variant_tag(1) + id.0@,
    }
}

/// The encoding of an argument of a call.
pub open spec fn enc_call_arg(a: CallArgView) -> Seq<u8> {
    match a {
        CallArgView::Pure(b) => variant_tag(0) + bytes_with_len(b),
        CallArgView::Object(o) => variant_tag(1) + enc_object_arg(o),
        CallArgView::ObjVec(v) => variant_tag(2) + encode_seq(v, |o: ObjectArg| enc_object_arg(o)),
    }
}

/// The encoding of a call.
pub open spec fn enc_move_call(c: MoveCallView) -> Seq<u8> {
    enc_object_ref(c.package) + bytes_with_len(c.module) + bytes_with_len(c.function)
        + encode_seq(c.type_arguments, |t: Seq<u8>| bytes_with_len(t))
            + encode_seq(c.arguments, |a: CallArgView| enc_call_arg(a))
}

/// The encoding of a publication: the bytes of its modules.
pub open spec fn enc_publish(p: MoveModulePublishView) -> Seq<u8> {
    encode_seq(p.modules, |m: Seq<u8>| bytes_with_len(m))
}

/// The encoding of a payment.
pub open spec fn enc_pay(p: PayView) -> Seq<u8> {
    encode_seq(p.coins, |r: ObjectRef| enc_object_ref(r)) + encode_seq(
        p.recipients,
        |a: SuiAddress| a.0@,
    ) + encode_seq(p.amounts, |n: u64| u64_le(n))
}

/// The encoding of a single transaction.
pub open spec fn enc_single(s: SingleTransactionKindView) -> Seq<u8> {
    match s {
        SingleTransactionKindView::TransferObject(t) => variant_tag(0) + t.recipient.0@
            + enc_object_ref(t.object_ref),
        SingleTransactionKindView::Publish(p) => variant_tag(1) + enc_publish(p),
        SingleTransactionKindView::Call(c) => variant_tag(2) + enc_move_call(c),
        SingleTransactionKindView::TransferSui(t) => variant_tag(3) + t.recipient.0@
            + encode_option(t.amount, |n: u64| u64_le(n)),
        SingleTransactionKindView::Pay(p) => variant_tag(4) + enc_pay(p),
        SingleTransactionKindView::ChangeEpoch(e) => variant_tag(5) + u64_le(e.epoch) + u64_le(
            e.storage_charge,
        ) + u64_le(e.computation_charge),
    }
}

/// The encoding of a kind.
pub open spec fn enc_kind(k: TransactionKindView) -> Seq<u8> {
    match k {
        TransactionKindView::Single(s) => variant_tag(0) + enc_single(s),
        TransactionKindView::Batch(b) => variant_tag(1) + encode_seq(
            b,
            |s: SingleTransactionKindView| enc_single(s),
        ),
    }
}

/// The encoding of the data of a transaction: what its sender signs.
pub open spec fn enc_transaction_data(td: TransactionDataView) -> Seq<u8> {
    enc_kind(td.kind) + td.sender.0@ + enc_object_ref(td.gas_payment) + u64_le(td.gas_price)
        + u64_le(td.gas_budget)
}

impl Encode for u64 {
    open spec fn encoding(&self) -> Seq<u8> {
        u64_le(*self)
    }

    fn encode(&self, out: &mut Vec<u8>) {
        assert(self.encoding() == u64_le(*self));
        write_u64(out, *self);
    }
}

impl Encode for Vec<u8> {
    open spec fn encoding(&self) -> Seq<u8> {
        bytes_with_len(self@)
    }

    fn encode(&self, out: &mut Vec<u8>) {
        assert(self.encoding() == bytes_with_len(self@));
        write_bytes(out, self.as_slice());
    }
}

impl Encode for ObjectID {
    open spec fn encoding(&self) -> Seq<u8> {
        self.0@
    }

    fn encode(&self, out: &mut Vec<u8>) {
        assert(self.encoding() == self.0@);
        let bytes = self.as_bytes();
        assert(bytes@ == self.encoding());
        write_raw(out, bytes);
    }
}

impl Encode for SuiAddress {
    open spec fn encoding(&self) -> Seq<u8> {
        self.0@
    }

    fn encode(&self, out: &mut Vec<u8>) {
        assert(self.encoding() == self.0@);
        let bytes = self.as_bytes();
        assert(bytes@ == self.encoding());
        write_raw(out, bytes);
    }
}

impl Encode for ObjectDigest {
    open spec fn encoding(&self) -> Seq<u8> {
        self.0@
    }

    fn encode(&self, out: &mut Vec<u8>) {
        assert(self.encoding() == self.0@);
        let bytes = self.as_bytes();
        assert(bytes@ == self.encoding());
        write_raw(out, bytes);
    }
}

impl Encode for (ObjectID, SequenceNumber, ObjectDigest) {
    open spec fn encoding(&self) -> Seq<u8> {
        enc_object_ref(*self)
    }

    fn encode(&self, out: &mut Vec<u8>) {
        assert(self.encoding() == enc_object_ref(*self));
        let ghost start = out@;
        self.0.encode(out);
        write_u64(out, self.1.value());
        self.2.encode(out);
        assert(out@ =~= start + enc_object_ref(*self));
    }
}

impl Encode for TypeTag {
    open spec fn encoding(&self) -> Seq<u8> {
        bytes_with_len(self@)
    }

    fn encode(&self, out: &mut Vec<u8>) {
        assert(self.encoding() == bytes_with_len(self@));
        write_bytes(out, self.as_bytes());
    }
}

impl Encode for ObjectArg {
    open spec fn encoding(&self) -> Seq<u8> {
        enc_object_arg(*self)
    }

    fn encode(&self, out: &mut Vec<u8>) {
        assert(self.encoding() == enc_object_arg(*self));
        let ghost start = out@;
        match self {
            ObjectArg::ImmOrOwnedObject(r) => {
                write_tag(out, 0);
                r.encode(out);
            },
            ObjectArg::SharedObject(id) => {
                write_tag(out, 1);
                id.encode(out);
            },
        }
        assert(out@ =~= start + enc_object_arg(*self));
    }
}

impl Encode for CallArg {
    open spec fn encoding(&self) -> Seq<u8> {
        enc_call_arg(self@)
    }

    fn encode(&self, out: &mut Vec<u8>) {
        assert(self.encoding() == enc_call_arg(self@));
        let ghost start = out@;
        match self {
            CallArg::Pure(b) => {
                write_tag(out, 0);
                b.encode(out);
            },
            CallArg::Object(o) => {
                write_tag(out, 1);
                o.encode(out);
            },
            CallArg::ObjVec(v) => {
                write_tag(out, 2);
                encode_vec(v, out);
                proof {
                    lemma_concat_encodings(v@, |o: ObjectArg| enc_object_arg(o));
                }
            },
        }
        assert(out@ =~= start + enc_call_arg(self@));
    }
}

impl Encode for MoveCall {
    open spec fn encoding(&self) -> Seq<u8> {
        enc_move_call(self@)
    }

    fn encode(&self, out: &mut Vec<u8>) {
        assert(self.encoding() == enc_move_call(self@));
        let ghost start = out@;
        self.package.encode(out);
        write_bytes(out, self.module.as_bytes());
        write_bytes(out, self.function.as_bytes());
        encode_vec(&self.type_arguments, out);
        encode_vec(&self.arguments, out);
        proof {
            lemma_concat_views(self.type_arguments@, |t: Seq<u8>| bytes_with_len(t));
            lemma_concat_views(self.arguments@, |a: CallArgView| enc_call_arg(a));
            assert(views_of(self.type_arguments@).len() == self.type_arguments@.len());
            assert(views_of(self.arguments@).len() == self.arguments@.len());
        }
        assert(out@ =~= start + enc_move_call(self@));
    }
}

impl Encode for MoveModulePublish {
    open spec fn encoding(&self) -> Seq<u8> {
        enc_publish(self@)
    }

    fn encode(&self, out: &mut Vec<u8>) {
        assert(self.encoding() == enc_publish(self@));
        let ghost start = out@;
        encode_vec(&self.modules, out);
        proof {
            lemma_concat_views(self.modules@, |m: Seq<u8>| bytes_with_len(m));
            assert(views_of(self.modules@).len() == self.modules@.len());
        }
        assert(out@ =~= start + enc_publish(self@));
    }
}

impl Encode for Pay {
    open spec fn encoding(&self) -> Seq<u8> {
        enc_pay(self@)
    }

    fn encode(&self, out: &mut Vec<u8>) {
        assert(self.encoding() == enc_pay(self@));
        let ghost start = out@;
        encode_vec(&self.coins, out);
        encode_vec(&self.recipients, out);
        encode_vec(&self.amounts, out);
        proof {
            lemma_concat_encodings(self.coins@, |r: ObjectRef| enc_object_ref(r));
            lemma_concat_encodings(self.recipients@, |a: SuiAddress| a.0@);
            lemma_concat_encodings(self.amounts@, |n: u64| u64_le(n));
        }
        assert(out@ =~= start + enc_pay(self@));
    }
}

impl Encode for SingleTransactionKind {
    open spec fn encoding(&self) -> Seq<u8> {
        enc_single(self@)
    }

    fn encode(&self, out: &mut Vec<u8>) {
        assert(self.encoding() == enc_single(self@));
        let ghost start = out@;
        match self {
            SingleTransactionKind::TransferObject(t) => {
                write_tag(out, 0);
                t.recipient.encode(out);
                t.object_ref.encode(out);
            },
            SingleTransactionKind::Publish(p) => {
                write_tag(out, 1);
                p.encode(out);
            },
            SingleTransactionKind::Call(c) => {
                write_tag(out, 2);
                c.encode(out);
            },
            SingleTransactionKind::TransferSui(t) => {
                write_tag(out, 3);
                t.recipient.encode(out);
                match t.amount {
                    None => {
                        out.push(0);
                    },
                    Some(n) => {
                        out.push(1);
                        write_u64(out, n);
                    },
                }
            },
            SingleTransactionKind::Pay(p) => {
                write_tag(out, 4);
                p.encode(out);
            },
            SingleTransactionKind::ChangeEpoch(e) => {
                write_tag(out, 5);
                write_u64(out, e.epoch);
                write_u64(out, e.storage_charge);
                write_u64(out, e.computation_charge);
            },
        }
        assert(out@ =~= start + enc_single(self@));
    }
}

impl Encode for TransactionKind {
    open spec fn encoding(&self) -> Seq<u8> {
        enc_kind(self@)
    }

    fn encode(&self, out: &mut Vec<u8>) {
        assert(self.encoding() == enc_kind(self@));
        let ghost start = out@;
        match self {
            TransactionKind::Single(s) => {
                write_tag(out, 0);
                s.encode(out);
            },
            TransactionKind::Batch(b) => {
                write_tag(out, 1);
                encode_vec(b, out);
                proof {
                    lemma_concat_views(b@, |s: SingleTransactionKindView| enc_single(s));
                    assert(views_of(b@).len() == b@.len());
                }
            },
        }
        assert(out@ =~= start + enc_kind(self@));
    }
}

impl Encode for TransactionData {
    open spec fn encoding(&self) -> Seq<u8> {
        enc_transaction_data(self@)
    }

    fn encode(&self, out: &mut Vec<u8>) {
        assert(self.encoding() == enc_transaction_data(self@));
        let ghost start = out@;
        self.kind.encode(out);
        self.sender.encode(out);
        self.gas_payment.encode(out);
        write_u64(out, self.gas_price);
        write_u64(out, self.gas_budget);
        assert(out@ =~= start + enc_transaction_data(self@));
    }
}

impl TransactionData {
    /// The canonical encoding of the data: what the sender signs.
    pub fn to_bytes(&self) -> (r: Vec<u8>)
        ensures
            r@ == enc_transaction_data(self@),
    {
        let mut writer: Vec<u8> = Vec::new();
        self.encode(&mut writer);
        writer
    }

    /// The canonical encoding of the data as Base64 text. It is for data whose
    /// encoding is at most a quarter of `usize::MAX` bytes long.
    pub fn to_base64(&self) -> (r: String)
        requires
            enc_transaction_data(self@).len() <= usize::MAX / 4,
        ensures
            r@ == base64_text(enc_transaction_data(self@)),
    {
        let bytes = self.to_bytes();
        Base64::from_bytes(bytes.as_slice()).0
    }
}

} // verus!
