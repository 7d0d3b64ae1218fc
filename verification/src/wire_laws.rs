//! The encoding of the transaction data model can be read back: what is encoded
//! determines what was encoded.

use crate::base_types::{ObjectID, ObjectRef, SuiAddress};
use crate::codec::{bytes_with_len, encode_option, encode_seq, u64_le, variant_tag};
use crate::framing::{
    lemma_bytes_unambiguous, lemma_concat_map_front, lemma_option_split, lemma_regroup,
    lemma_same_length_split, lemma_seq_split, lemma_u64_split, lemma_u64_unambiguous,
    lemma_uleb128_split, unambiguous,
};
use crate::transaction::{
    CallArgView, MoveCallView, MoveModulePublishView, ObjectArg, PayView,
    SingleTransactionKindView, TransactionKindView,
};
use crate::transaction_data::TransactionDataView;
use crate::wire::{
    enc_call_arg, enc_kind, enc_move_call, enc_object_arg, enc_object_ref, enc_pay, enc_publish,
    enc_single, enc_transaction_data,
};
use vstd::prelude::*;

verus! {

/// An object identifier can be read back.
pub proof fn lemma_object_id_split(a: ObjectID, b: ObjectID, ra: Seq<u8>, rb: Seq<u8>)
    requires
        a.0@ + ra == b.0@ + rb,
    ensures
        a == b,
        ra == rb,
{
    lemma_same_length_split(a.0@, b.0@, ra, rb);
    assert(a.0 =~= b.0);
}

/// An address can be read back.
pub proof fn lemma_address_split(a: SuiAddress, b: SuiAddress, ra: Seq<u8>, rb: Seq<u8>)
    requires
        a.0@ + ra == b.0@ + rb,
    ensures
        a == b,
        ra == rb,
{
    lemma_same_length_split(a.0@, b.0@, ra, rb);
    assert(a.0 =~= b.0);
}

/// An object reference can be read back.
pub proof fn lemma_object_ref_split(a: ObjectRef, b: ObjectRef, ra: Seq<u8>, rb: Seq<u8>)
    requires
        enc_object_ref(a) + ra == enc_object_ref(b) + rb,
    ensures
        a == b,
        ra == rb,
{
    let ta = u64_le(a.1.0) + (a.2.0@ + ra);
    let tb = u64_le(b.1.0) + (b.2.0@ + rb);
    assert(enc_object_ref(a) + ra =~= a.0.0@ + ta);
    assert(enc_object_ref(b) + rb =~= b.0.0@ + tb);
    lemma_object_id_split(a.0, b.0, ta, tb);
    lemma_u64_split(a.1.0, b.1.0, a.2.0@ + ra, b.2.0@ + rb);
    lemma_same_length_split(a.2.0@, b.2.0@, ra, rb);
    assert(a.2.0 =~= b.2.0);
}

/// Where two byte strings that start with the index of a variant are the same, the
/// indices are the same, and so is what follows them.
pub proof fn lemma_tag_split(i: u8, j: u8, ra: Seq<u8>, rb: Seq<u8>)
    requires
        variant_tag(i) + ra == variant_tag(j) + rb,
    ensures
        i == j,
        ra == rb,
{
    assert((variant_tag(i) + ra)[0] == i);
    assert((variant_tag(j) + rb)[0] == j);
    lemma_same_length_split(variant_tag(i), variant_tag(j), ra, rb);
}

/// An object argument can be read back.
pub proof fn lemma_object_arg_split(a: ObjectArg, b: ObjectArg, ra: Seq<u8>, rb: Seq<u8>)
    requires
        enc_object_arg(a) + ra == enc_object_arg(b) + rb,
    ensures
        a == b,
        ra == rb,
{
    match (a, b) {
        (ObjectArg::ImmOrOwnedObject(x), ObjectArg::ImmOrOwnedObject(y)) => {
            lemma_regroup(variant_tag(0), enc_object_ref(x), ra);
            lemma_regroup(variant_tag(0), enc_object_ref(y), rb);
            lemma_tag_split(0, 0, enc_object_ref(x) + ra, enc_object_ref(y) + rb);
            lemma_object_ref_split(x, y, ra, rb);
        },
        (ObjectArg::SharedObject(x), ObjectArg::SharedObject(y)) => {
            lemma_regroup(variant_tag(1), x.0@, ra);
            lemma_regroup(variant_tag(1), y.0@, rb);
            lemma_tag_split(1, 1, x.0@ + ra, y.0@ + rb);
            lemma_object_id_split(x, y, ra, rb);
        },
        (ObjectArg::ImmOrOwnedObject(x), ObjectArg::SharedObject(y)) => {
            lemma_regroup(variant_tag(0), enc_object_ref(x), ra);
            lemma_regroup(variant_tag(1), y.0@, rb);
            lemma_tag_split(0, 1, enc_object_ref(x) + ra, y.0@ + rb);
        },
        (ObjectArg::SharedObject(x), ObjectArg::ImmOrOwnedObject(y)) => {
            lemma_regroup(variant_tag(1), x.0@, ra);
            lemma_regroup(variant_tag(0), enc_object_ref(y), rb);
            lemma_tag_split(1, 0, x.0@ + ra, enc_object_ref(y) + rb);
        },
    }
}

/// Object references can be read back.
pub proof fn lemma_object_ref_unambiguous()
    ensures
        unambiguous(|r: ObjectRef| enc_object_ref(r)),
{
    let enc = |r: ObjectRef| enc_object_ref(r);
    assert forall|a: ObjectRef, b: ObjectRef, ra: Seq<u8>, rb: Seq<u8>| #[trigger]
        (enc(a) + ra) == #[trigger] (enc(b) + rb) implies a == b && ra == rb by {
        lemma_object_ref_split(a, b, ra, rb);
    }
}

/// Object arguments can be read back.
pub proof fn lemma_object_arg_unambiguous()
    ensures
        unambiguous(|o: ObjectArg| enc_object_arg(o)),
{
    let enc = |o: ObjectArg| enc_object_arg(o);
    assert forall|a: ObjectArg, b: ObjectArg, ra: Seq<u8>, rb: Seq<u8>| #[trigger]
        (enc(a) + ra) == #[trigger] (enc(b) + rb) implies a == b && ra == rb by {
        lemma_object_arg_split(a, b, ra, rb);
    }
}

/// Addresses can be read back.
pub proof fn lemma_address_unambiguous()
    ensures
        unambiguous(|a: SuiAddress| a.0@),
{
    let enc = |a: SuiAddress| a.0@;
    assert forall|a: SuiAddress, b: SuiAddress, ra: Seq<u8>, rb: Seq<u8>| #[trigger]
        (enc(a) + ra) == #[trigger] (enc(b) + rb) implies a == b && ra == rb by {
        lemma_address_split(a, b, ra, rb);
    }
}

/// The index of the variant of an argument of a call.
pub open spec fn call_arg_index(a: CallArgView) -> u8 {
    match a {
        CallArgView::Pure(_) => 0,
        CallArgView::Object(_) => 1,
        CallArgView::ObjVec(_) => 2,
    }
}

/// What follows the index in the encoding of an argument of a call.
pub open spec fn call_arg_payload(a: CallArgView) -> Seq<u8> {
    match a {
        CallArgView::Pure(b) => bytes_with_len(b),
        CallArgView::Object(o) => enc_object_arg(o),
        CallArgView::ObjVec(v) => encode_seq(v, |o: ObjectArg| enc_object_arg(o)),
    }
}

/// An argument of a call can be read back.
pub proof fn lemma_call_arg_split(a: CallArgView, b: CallArgView, ra: Seq<u8>, rb: Seq<u8>)
    requires
        enc_call_arg(a) + ra == enc_call_arg(b) + rb,
    ensures
        a == b,
        ra == rb,
{
    lemma_regroup(variant_tag(call_arg_index(a)), call_arg_payload(a), ra);
    lemma_regroup(variant_tag(call_arg_index(b)), call_arg_payload(b), rb);
    lemma_tag_split(
        call_arg_index(a),
        call_arg_index(b),
        call_arg_payload(a) + ra,
        call_arg_payload(b) + rb,
    );
    match (a, b) {
        (CallArgView::Pure(x), CallArgView::Pure(y)) => {
            crate::framing::lemma_bytes_split(x, y, ra, rb);
        },
        (CallArgView::Object(x), CallArgView::Object(y)) => {
            lemma_object_arg_split(x, y, ra, rb);
        },
        (CallArgView::ObjVec(x), CallArgView::ObjVec(y)) => {
            lemma_object_arg_unambiguous();
            lemma_seq_split(x, y, ra, rb, |o: ObjectArg| enc_object_arg(o));
        },
        _ => {},
    }
}

/// Arguments of calls can be read back.
pub proof fn lemma_call_arg_unambiguous()
    ensures
        unambiguous(|a: CallArgView| enc_call_arg(a)),
{
    let enc = |a: CallArgView| enc_call_arg(a);
    assert forall|a: CallArgView, b: CallArgView, ra: Seq<u8>, rb: Seq<u8>| #[trigger]
        (enc(a) + ra) == #[trigger] (enc(b) + rb) implies a == b && ra == rb by {
        lemma_call_arg_split(a, b, ra, rb);
    }
}

/// A call can be read back.
pub proof fn lemma_move_call_split(a: MoveCallView, b: MoveCallView, ra: Seq<u8>, rb: Seq<u8>)
    requires
        enc_move_call(a) + ra == enc_move_call(b) + rb,
    ensures
        a == b,
        ra == rb,
{
    let a5 = encode_seq(a.arguments, |x: CallArgView| enc_call_arg(x));
    let b5 = encode_seq(b.arguments, |x: CallArgView| enc_call_arg(x));
    let a4 = encode_seq(a.type_arguments, |t: Seq<u8>| bytes_with_len(t));
    let b4 = encode_seq(b.type_arguments, |t: Seq<u8>| bytes_with_len(t));
    let ta3 = bytes_with_len(a.function) + (a4 + (a5 + ra));
    let tb3 = bytes_with_len(b.function) + (b4 + (b5 + rb));
    let ta2 = bytes_with_len(a.module) + ta3;
    let tb2 = bytes_with_len(b.module) + tb3;
    assert(enc_move_call(a) + ra =~= enc_object_ref(a.package) + ta2);
    assert(enc_move_call(b) + rb =~= enc_object_ref(b.package) + tb2);
    lemma_object_ref_split(a.package, b.package, ta2, tb2);
    crate::framing::lemma_bytes_split(a.module, b.module, ta3, tb3);
    crate::framing::lemma_bytes_split(a.function, b.function, a4 + (a5 + ra), b4 + (b5 + rb));
    lemma_bytes_unambiguous();
    lemma_seq_split(
        a.type_arguments,
        b.type_arguments,
        a5 + ra,
        b5 + rb,
        |t: Seq<u8>| bytes_with_len(t),
    );
    lemma_call_arg_unambiguous();
    lemma_seq_split(a.arguments, b.arguments, ra, rb, |x: CallArgView| enc_call_arg(x));
}

/// The modules of a publication can be read back. What was read of the modules is not
/// encoded and is not read back.
pub proof fn lemma_publish_split(
    a: MoveModulePublishView,
    b: MoveModulePublishView,
    ra: Seq<u8>,
    rb: Seq<u8>,
)
    requires
        enc_publish(a) + ra == enc_publish(b) + rb,
    ensures
        a.modules == b.modules,
        ra == rb,
{
    lemma_bytes_unambiguous();
    lemma_seq_split(a.modules, b.modules, ra, rb, |m: Seq<u8>| bytes_with_len(m));
}

/// A payment can be read back.
pub proof fn lemma_pay_split(a: PayView, b: PayView, ra: Seq<u8>, rb: Seq<u8>)
    requires
        enc_pay(a) + ra == enc_pay(b) + rb,
    ensures
        a == b,
        ra == rb,
{
    let a3 = encode_seq(a.amounts, |n: u64| u64_le(n));
    let b3 = encode_seq(b.amounts, |n: u64| u64_le(n));
    let a2 = encode_seq(a.recipients, |x: SuiAddress| x.0@);
    let b2 = encode_seq(b.recipients, |x: SuiAddress| x.0@);
    assert(enc_pay(a) + ra =~= encode_seq(a.coins, |r: ObjectRef| enc_object_ref(r)) + (a2 + (a3
        + ra)));
    assert(enc_pay(b) + rb =~= encode_seq(b.coins, |r: ObjectRef| enc_object_ref(r)) + (b2 + (b3
        + rb)));
    lemma_object_ref_unambiguous();
    lemma_seq_split(
        a.coins,
        b.coins,
        a2 + (a3 + ra),
        b2 + (b3 + rb),
        |r: ObjectRef| enc_object_ref(r),
    );
    lemma_address_unambiguous();
    lemma_seq_split(a.recipients, b.recipients, a3 + ra, b3 + rb, |x: SuiAddress| x.0@);
    lemma_u64_unambiguous();
    lemma_seq_split(a.amounts, b.amounts, ra, rb, |n: u64| u64_le(n));
}

/// Whether two single transactions are the same as far as they are encoded: the same
/// altogether, but for a publication, of which the bytes of the modules are encoded and
/// what was read of them is not.
pub open spec fn same_single(a: SingleTransactionKindView, b: SingleTransactionKindView) -> bool {
    match (a, b) {
        (
            SingleTransactionKindView::Publish(p),
            SingleTransactionKindView::Publish(q),
        ) => p.modules == q.modules,
        (SingleTransactionKindView::Publish(_), _) => false,
        (_, SingleTransactionKindView::Publish(_)) => false,
        _ => a == b,
    }
}

/// Whether two kinds are the same as far as they are encoded.
pub open spec fn same_kind(a: TransactionKindView, b: TransactionKindView) -> bool {
    match (a, b) {
        (TransactionKindView::Single(x), TransactionKindView::Single(y)) => same_single(x, y),
        (TransactionKindView::Batch(x), TransactionKindView::Batch(y)) => x.len() == y.len()
            && forall|i: int| 0 <= i < x.len() ==> same_single(#[trigger] x[i], y[i]),
        _ => false,
    }
}

/// Whether the data of two transactions are the same as far as they are encoded.
pub open spec fn same_data(a: TransactionDataView, b: TransactionDataView) -> bool {
    &&& same_kind(a.kind, b.kind)
    &&& a.sender == b.sender
    &&& a.gas_payment == b.gas_payment
    &&& a.gas_price == b.gas_price
    &&& a.gas_budget == b.gas_budget
}

/// The index of the variant of a single transaction.
pub open spec fn single_index(s: SingleTransactionKindView) -> u8 {
    match s {
        SingleTransactionKindView::TransferObject(_) => 0,
        SingleTransactionKindView::Publish(_) => 1,
        SingleTransactionKindView::Call(_) => 2,
        SingleTransactionKindView::TransferSui(_) => 3,
        SingleTransactionKindView::Pay(_) => 4,
        SingleTransactionKindView::ChangeEpoch(_) => 5,
    }
}

/// What follows the index in the encoding of a single transaction.
pub open spec fn single_payload(s: SingleTransactionKindView) -> Seq<u8> {
    match s {
        SingleTransactionKindView::TransferObject(t) => t.recipient.0@ + enc_object_ref(
            t.object_ref,
        ),
        SingleTransactionKindView::Publish(p) => enc_publish(p),
        SingleTransactionKindView::Call(c) => enc_move_call(c),
        SingleTransactionKindView::TransferSui(t) => t.recipient.0@ + encode_option(
            t.amount,
            |n: u64| u64_le(n),
        ),
        SingleTransactionKindView::Pay(p) => enc_pay(p),
        SingleTransactionKindView::ChangeEpoch(e) => u64_le(e.epoch) + u64_le(e.storage_charge)
            + u64_le(e.computation_charge),
    }
}

/// A single transaction can be read back, as far as it is encoded.
pub proof fn lemma_single_split(
    a: SingleTransactionKindView,
    b: SingleTransactionKindView,
    ra: Seq<u8>,
    rb: Seq<u8>,
)
    requires
        enc_single(a) + ra == enc_single(b) + rb,
    ensures
        same_single(a, b),
        ra == rb,
{
    assert(enc_single(a) + ra =~= variant_tag(single_index(a)) + (single_payload(a) + ra));
    assert(enc_single(b) + rb =~= variant_tag(single_index(b)) + (single_payload(b) + rb));
    lemma_tag_split(
        single_index(a),
        single_index(b),
        single_payload(a) + ra,
        single_payload(b) + rb,
    );
    match (a, b) {
        (
            SingleTransactionKindView::TransferObject(x),
            SingleTransactionKindView::TransferObject(y),
        ) => {
            lemma_regroup(x.recipient.0@, enc_object_ref(x.object_ref), ra);
            lemma_regroup(y.recipient.0@, enc_object_ref(y.object_ref), rb);
            lemma_address_split(
                x.recipient,
                y.recipient,
                enc_object_ref(x.object_ref) + ra,
                enc_object_ref(y.object_ref) + rb,
            );
            lemma_object_ref_split(x.object_ref, y.object_ref, ra, rb);
        },
        (SingleTransactionKindView::Publish(x), SingleTransactionKindView::Publish(y)) => {
            lemma_publish_split(x, y, ra, rb);
        },
        (SingleTransactionKindView::Call(x), SingleTransactionKindView::Call(y)) => {
            lemma_move_call_split(x, y, ra, rb);
        },
        (
            SingleTransactionKindView::TransferSui(x),
            SingleTransactionKindView::TransferSui(y),
        ) => {
            let ox = encode_option(x.amount, |n: u64| u64_le(n));
            let oy = encode_option(y.amount, |n: u64| u64_le(n));
            lemma_regroup(x.recipient.0@, ox, ra);
            lemma_regroup(y.recipient.0@, oy, rb);
            lemma_address_split(x.recipient, y.recipient, ox + ra, oy + rb);
            lemma_u64_unambiguous();
            lemma_option_split(x.amount, y.amount, ra, rb, |n: u64| u64_le(n));
        },
        (SingleTransactionKindView::Pay(x), SingleTransactionKindView::Pay(y)) => {
            lemma_pay_split(x, y, ra, rb);
        },
        (
            SingleTransactionKindView::ChangeEpoch(x),
            SingleTransactionKindView::ChangeEpoch(y),
        ) => {
            let tx = u64_le(x.storage_charge) + (u64_le(x.computation_charge) + ra);
            let ty = u64_le(y.storage_charge) + (u64_le(y.computation_charge) + rb);
            assert(single_payload(a) + ra =~= u64_le(x.epoch) + tx);
            assert(single_payload(b) + rb =~= u64_le(y.epoch) + ty);
            lemma_u64_split(x.epoch, y.epoch, tx, ty);
            lemma_u64_split(
                x.storage_charge,
                y.storage_charge,
                u64_le(x.computation_charge) + ra,
                u64_le(y.computation_charge) + rb,
            );
            lemma_u64_split(x.computation_charge, y.computation_charge, ra, rb);
        },
        _ => {},
    }
}

/// As many single transactions, one after the other, can be read back, as far as they
/// are encoded.
pub proof fn lemma_singles_split(
    a: Seq<SingleTransactionKindView>,
    b: Seq<SingleTransactionKindView>,
    ra: Seq<u8>,
    rb: Seq<u8>,
)
    requires
        a.len() == b.len(),
        crate::codec::concat_map(a, |s: SingleTransactionKindView| enc_single(s)) + ra
            == crate::codec::concat_map(b, |s: SingleTransactionKindView| enc_single(s)) + rb,
    ensures
        forall|i: int| 0 <= i < a.len() ==> same_single(#[trigger] a[i], b[i]),
        ra == rb,
    decreases a.len(),
{
    let f = |s: SingleTransactionKindView| enc_single(s);
    if a.len() == 0 {
        assert(crate::codec::concat_map(a, f) + ra =~= ra);
        assert(crate::codec::concat_map(b, f) + rb =~= rb);
    } else {
        lemma_concat_map_front(a, f);
        lemma_concat_map_front(b, f);
        let ta = crate::codec::concat_map(a.skip(1), f) + ra;
        let tb = crate::codec::concat_map(b.skip(1), f) + rb;
        lemma_regroup(f(a[0]), crate::codec::concat_map(a.skip(1), f), ra);
        lemma_regroup(f(b[0]), crate::codec::concat_map(b.skip(1), f), rb);
        lemma_single_split(a[0], b[0], ta, tb);
        lemma_singles_split(a.skip(1), b.skip(1), ra, rb);
        assert forall|i: int| 0 <= i < a.len() implies same_single(#[trigger] a[i], b[i]) by {
            if i > 0 {
                assert(a.skip(1)[i - 1] == a[i]);
                assert(b.skip(1)[i - 1] == b[i]);
                assert(same_single(a.skip(1)[i - 1], b.skip(1)[i - 1]));
            }
        }
    }
}

/// A kind can be read back, as far as it is encoded.
pub proof fn lemma_kind_split(
    a: TransactionKindView,
    b: TransactionKindView,
    ra: Seq<u8>,
    rb: Seq<u8>,
)
    requires
        enc_kind(a) + ra == enc_kind(b) + rb,
    ensures
        same_kind(a, b),
        ra == rb,
{
    let f = |s: SingleTransactionKindView| enc_single(s);
    match (a, b) {
        (TransactionKindView::Single(x), TransactionKindView::Single(y)) => {
            lemma_regroup(variant_tag(0), enc_single(x), ra);
            lemma_regroup(variant_tag(0), enc_single(y), rb);
            lemma_tag_split(0, 0, enc_single(x) + ra, enc_single(y) + rb);
            lemma_single_split(x, y, ra, rb);
        },
        (TransactionKindView::Batch(x), TransactionKindView::Batch(y)) => {
            let cx = crate::codec::concat_map(x, f);
            let cy = crate::codec::concat_map(y, f);
            assert(enc_kind(a) + ra =~= variant_tag(1)
                + (crate::codec::uleb128(x.len()) + (cx + ra)));
            assert(enc_kind(b) + rb =~= variant_tag(1)
                + (crate::codec::uleb128(y.len()) + (cy + rb)));
            lemma_tag_split(
                1,
                1,
                crate::codec::uleb128(x.len()) + (cx + ra),
                crate::codec::uleb128(y.len()) + (cy + rb),
            );
            lemma_uleb128_split(x.len(), y.len(), cx + ra, cy + rb);
            lemma_singles_split(x, y, ra, rb);
        },
        (TransactionKindView::Single(x), TransactionKindView::Batch(y)) => {
            lemma_regroup(variant_tag(0), enc_single(x), ra);
            lemma_regroup(variant_tag(1), encode_seq(y, f), rb);
            lemma_tag_split(0, 1, enc_single(x) + ra, encode_seq(y, f) + rb);
        },
        (TransactionKindView::Batch(x), TransactionKindView::Single(y)) => {
            lemma_regroup(variant_tag(1), encode_seq(x, f), ra);
            lemma_regroup(variant_tag(0), enc_single(y), rb);
            lemma_tag_split(1, 0, encode_seq(x, f) + ra, enc_single(y) + rb);
        },
    }
}

/// The data of a transaction can be read back, as far as they are encoded: what the
/// sender signs determines what the sender asked for.
pub proof fn lemma_transaction_data_split(
    a: TransactionDataView,
    b: TransactionDataView,
    ra: Seq<u8>,
    rb: Seq<u8>,
)
    requires
        enc_transaction_data(a) + ra == enc_transaction_data(b) + rb,
    ensures
        same_data(a, b),
        ra == rb,
{
    let ta4 = u64_le(a.gas_price) + (u64_le(a.gas_budget) + ra);
    let tb4 = u64_le(b.gas_price) + (u64_le(b.gas_budget) + rb);
    let ta3 = enc_object_ref(a.gas_payment) + ta4;
    let tb3 = enc_object_ref(b.gas_payment) + tb4;
    let ta2 = a.sender.0@ + ta3;
    let tb2 = b.sender.0@ + tb3;
    assert(enc_transaction_data(a) + ra =~= enc_kind(a.kind) + ta2);
    assert(enc_transaction_data(b) + rb =~= enc_kind(b.kind) + tb2);
    lemma_kind_split(a.kind, b.kind, ta2, tb2);
    lemma_address_split(a.sender, b.sender, ta3, tb3);
    lemma_object_ref_split(a.gas_payment, b.gas_payment, ta4, tb4);
    lemma_u64_split(a.gas_price, b.gas_price, u64_le(a.gas_budget) + ra, u64_le(b.gas_budget) + rb);
    lemma_u64_split(a.gas_budget, b.gas_budget, ra, rb);
}

/// What the bytes `bytes` stand for as the data of a transaction, where they are the
/// encoding of such data: the reading that undoes the encoding.
pub open spec fn decode_transaction_data(bytes: Seq<u8>) -> Option<TransactionDataView> {
    if exists|v: TransactionDataView| enc_transaction_data(v) == bytes {
        Some(choose|v: TransactionDataView| enc_transaction_data(v) == bytes)
    } else {
        None
    }
}

/// Decoding undoes encoding: what is read from the encoding of the data of a
/// transaction is those data, as far as they are encoded.
pub proof fn lemma_transaction_data_round_trip(v: TransactionDataView)
    ensures
        decode_transaction_data(enc_transaction_data(v)) matches Some(w) && same_data(w, v),
{
    let w = choose|w: TransactionDataView| enc_transaction_data(w) == enc_transaction_data(v);
    let empty = Seq::<u8>::empty();
    assert(enc_transaction_data(w) + empty == enc_transaction_data(v) + empty);
    lemma_transaction_data_split(w, v, empty, empty);
}

} // verus!
