//! What a transaction asks for as a whole, and the data that its sender signs.

use crate::base_types::{spec_system_state_object_id, ObjectID, ObjectRef, SuiAddress};
use crate::codec::views_of;
use crate::error::{SuiError, SuiResult};
use crate::move_types::{CompiledModule, Identifier, TypeTag};
use crate::transaction::{
    collected_inputs, distinct_ids, has_duplicate_ids, shared_among, shared_ids, CallArg,
    InputObjectKind,
    MoveCall, MoveCallView, MoveModulePublish, MoveModulePublishView, Pay, PayView,
    SingleTransactionKind,
    SingleTransactionKindView, TransactionKind, TransactionKindView, TransferObject, TransferSui,
};
use vstd::prelude::*;

verus! {

/// The single transactions of `k`, in their order.
pub open spec fn singles(k: TransactionKindView) -> Seq<SingleTransactionKindView> {
    match k {
        TransactionKindView::Single(s) => seq![s],
        TransactionKindView::Batch(b) => b,
    }
}

/// The inputs that the single transactions `ss` name, one transaction after the other.
pub open spec fn concat_inputs(ss: Seq<SingleTransactionKindView>) -> Seq<InputObjectKind>
    decreases ss.len(),
{
    if ss.len() == 0 {
        Seq::empty()
    } else {
        concat_inputs(ss.drop_last()) + collected_inputs(ss.last())
    }
}

/// The inputs that the kind names, before any check.
pub open spec fn kind_inputs(k: TransactionKindView) -> Seq<InputObjectKind> {
    concat_inputs(singles(k))
}

/// Whether no single transaction of `k` names one object twice.
pub open spec fn singles_distinct(k: TransactionKindView) -> bool {
    forall|i: int|
        0 <= i < singles(k).len() ==> distinct_ids(collected_inputs(#[trigger] singles(k)[i]))
}

/// Whether a single transaction may stand in a batch.
pub open spec fn is_batchable(s: SingleTransactionKindView) -> bool {
    s is Call || s is TransferObject || s is Pay
}

/// Whether the kind is well-formed: a single transaction, or a batch that is not empty
/// and holds only transactions that may stand in a batch.
pub open spec fn is_valid_kind(k: TransactionKindView) -> bool {
    match k {
        TransactionKindView::Single(_) => true,
        TransactionKindView::Batch(b) => b.len() > 0 && forall|i: int|
            0 <= i < b.len() ==> is_batchable(#[trigger] b[i]),
    }
}

/// Whether the kind is the system's own transaction: a single change of epoch.
pub open spec fn is_system_kind(k: TransactionKindView) -> bool {
    k matches TransactionKindView::Single(s) && s is ChangeEpoch
}

/// The calls that the single transactions `ss` make, in their order.
pub open spec fn concat_calls(ss: Seq<SingleTransactionKindView>) -> Seq<MoveCallView>
    decreases ss.len(),
{
    if ss.len() == 0 {
        Seq::empty()
    } else {
        match ss.last() {
            SingleTransactionKindView::Call(c) => concat_calls(ss.drop_last()).push(c),
            _ => concat_calls(ss.drop_last()),
        }
    }
}

/// Appends the items of `more` to `out`.
fn append_flat<T: Copy>(out: &mut Vec<T>, more: &Vec<T>)
    ensures
        final(out)@ == old(out)@ + more@,
{
    let ghost start = out@;
    let mut i: usize = 0;
    while i < more.len()
        invariant
            i <= more.len(),
            out@ == start + more@.take(i as int),
        decreases more.len() - i,
    {
        out.push(more[i]);
        assert(out@ =~= start + more@.take(i as int + 1));
        i += 1;
    }
    assert(more@.take(more.len() as int) =~= more@);
}

impl TransactionKind {
    /// The single transactions of the kind, in their order.
    pub fn single_transactions(&self) -> (r: Vec<&SingleTransactionKind>)
        ensures
            r@.len() == singles(self@).len(),
            forall|i: int| 0 <= i < r@.len() ==> (#[trigger] r@[i])@ == singles(self@)[i],
            self matches TransactionKind::Batch(b) ==> forall|i: int|
                0 <= i < r@.len() ==> *#[trigger] r@[i] == b@[i],
            self matches TransactionKind::Single(s) ==> *r@[0] == *s,
    {
        match self {
            TransactionKind::Single(s) => {
                let r = vec![s];
                r
            },
            TransactionKind::Batch(b) => {
                let mut r: Vec<&SingleTransactionKind> = Vec::new();
                let mut i: usize = 0;
                while i < b.len()
                    invariant
                        i <= b.len(),
                        r.len() == i,
                        forall|j: int| 0 <= j < i ==> *#[trigger] r@[j] == b@[j],
                    decreases b.len() - i,
                {
                    r.push(&b[i]);
                    i += 1;
                }
                r
            },
        }
    }

    /// The single transactions of the kind, in their order.
    pub fn into_single_transactions(self) -> (r: Vec<SingleTransactionKind>)
        ensures
            views_of(r@) == singles(self@),
    {
        match self {
            TransactionKind::Single(s) => {
                let r = vec![s];
                assert(views_of(r@) =~= singles(self@));
                r
            },
            TransactionKind::Batch(b) => b,
        }
    }

    /// The inputs of the kind, before any check.
    pub(crate) fn collect_inputs(&self) -> (r: Vec<InputObjectKind>)
        ensures
            r@ == kind_inputs(self@),
    {
        let parts = self.single_transactions();
        let ghost ss = singles(self@);
        let mut out: Vec<InputObjectKind> = Vec::new();
        let mut i: usize = 0;
        while i < parts.len()
            invariant
                i <= parts.len(),
                parts@.len() == ss.len(),
                forall|j: int| 0 <= j < parts@.len() ==> (#[trigger] parts@[j])@ == ss[j],
                out@ == concat_inputs(ss.take(i as int)),
            decreases parts.len() - i,
        {
            assert(ss.take(i as int + 1).drop_last() =~= ss.take(i as int));
            let v = parts[i].collect_inputs();
            append_flat(&mut out, &v);
            i += 1;
        }
        assert(ss.take(ss.len() as int) =~= ss);
        out
    }

    /// The inputs of the kind: those of its single transactions, one transaction after
    /// the other. Refuses a kind of which a single transaction names one object twice.
    pub fn input_objects(&self) -> (r: SuiResult<Vec<InputObjectKind>>)
        ensures
            match r {
                Ok(v) => v@ == kind_inputs(self@) && singles_distinct(self@),
                Err(e) => e == SuiError::DuplicateObjectRefInput && !singles_distinct(self@),
            },
    {
        let parts = self.single_transactions();
        let ghost ss = singles(self@);
        let mut out: Vec<InputObjectKind> = Vec::new();
        let mut i: usize = 0;
        while i < parts.len()
            invariant
                i <= parts.len(),
                ss == singles(self@),
                parts@.len() == ss.len(),
                forall|j: int| 0 <= j < parts@.len() ==> (#[trigger] parts@[j])@ == ss[j],
                out@ == concat_inputs(ss.take(i as int)),
                forall|j: int| 0 <= j < i ==> distinct_ids(collected_inputs(#[trigger] ss[j])),
            decreases parts.len() - i,
        {
            assert(ss.take(i as int + 1).drop_last() =~= ss.take(i as int));
            match parts[i].input_objects() {
                Ok(v) => append_flat(&mut out, &v),
                Err(e) => {
                    assert(!distinct_ids(collected_inputs(ss[i as int])));
                    return Err(e);
                },
            }
            i += 1;
        }
        assert(ss.take(ss.len() as int) =~= ss);
        Ok(out)
    }

    /// The shared objects among the inputs of the kind, in the order of the inputs.
    pub fn shared_input_objects(&self) -> (r: Vec<ObjectID>)
        ensures
            r@ == shared_among(kind_inputs(self@)),
    {
        let inputs = self.collect_inputs();
        shared_ids(&inputs)
    }

    /// The number of single transactions of the kind.
    pub fn batch_size(&self) -> (r: usize)
        ensures
            r == singles(self@).len(),
    {
        match self {
            TransactionKind::Single(_) => 1,
            TransactionKind::Batch(batch) => batch.len(),
        }
    }

    /// Whether the kind is the system's own transaction.
    pub fn is_system_tx(&self) -> (r: bool)
        ensures
            r == is_system_kind(self@),
    {
        matches!(self, TransactionKind::Single(SingleTransactionKind::ChangeEpoch(_)))
    }

    /// Whether the kind is a change of epoch.
    pub fn is_change_epoch_tx(&self) -> (r: bool)
        ensures
            r == is_system_kind(self@),
    {
        matches!(self, TransactionKind::Single(SingleTransactionKind::ChangeEpoch(_)))
    }

    /// Checks that the kind is well-formed. A batch must hold at least one transaction,
    /// and only calls, transfers of objects and payments.
    pub fn validity_check(&self) -> (r: SuiResult)
        ensures
            r.is_ok() == is_valid_kind(self@),
            r matches Err(e) ==>
                e matches SuiError::InvalidBatchTransaction { error }
                && error@ == (if singles(self@).len() == 0 {
                "Batch Transaction cannot be empty"@
            } else {
                "Batch transaction contains non-batchable transactions. Only Call and TransferObject are allowed"@
            }),
    {
        match self {
            TransactionKind::Batch(b) => {
                if b.len() == 0 {
                    return Err(
                        SuiError::InvalidBatchTransaction {
                            error: "Batch Transaction cannot be empty".to_owned(),
                        },
                    );
                }
                let mut i: usize = 0;
                while i < b.len()
                    invariant
                        i <= b.len(),
                        b.len() > 0,
                        self@ == TransactionKindView::Batch(views_of(b@)),
                        forall|j: int| 0 <= j < i ==> is_batchable(#[trigger] b@[j]@),
                    decreases b.len() - i,
                {
                    let valid = match &b[i] {
                        SingleTransactionKind::Call(_)
                        | SingleTransactionKind::TransferObject(_)
                        | SingleTransactionKind::Pay(_) => true,
                        SingleTransactionKind::TransferSui(_)
                        | SingleTransactionKind::ChangeEpoch(_)
                        | SingleTransactionKind::Publish(_) => false,
                    };
                    if !valid {
                        assert(!is_batchable(views_of(b@)[i as int]));
                        return Err(
                            SuiError::InvalidBatchTransaction {
                                error: "Batch transaction contains non-batchable transactions. Only Call and TransferObject are allowed".to_owned(),
                            },
                        );
                    }
                    i += 1;
                }
                assert forall|j: int| 0 <= j < views_of(b@).len() implies is_batchable(
                    #[trigger] views_of(b@)[j],
                ) by {
                    assert(is_batchable(b@[j]@));
                }
            },
            TransactionKind::Single(_) => {},
        }
        Ok(())
    }
}

/// What the sender of a transaction signs: what is asked for, who asks, and the gas
/// that pays for it.
#[derive(Debug, PartialEq, Eq, Hash)]
pub struct TransactionData {
    pub kind: TransactionKind,
    pub sender: SuiAddress,
    pub gas_payment: ObjectRef,
    pub gas_price: u64,
    pub gas_budget: u64,
}

/// The mathematical form of a `TransactionData`.
pub struct TransactionDataView {
    pub kind: TransactionKindView,
    pub sender: SuiAddress,
    pub gas_payment: ObjectRef,
    pub gas_price: u64,
    pub gas_budget: u64,
}

impl View for TransactionData {
    type V = TransactionDataView;

    open spec fn view(&self) -> TransactionDataView {
        TransactionDataView {
            kind: self.kind@,
            sender: self.sender,
            gas_payment: self.gas_payment,
            gas_price: self.gas_price,
            gas_budget: self.gas_budget,
        }
    }
}

impl Clone for TransactionData {
    fn clone(&self) -> (r: Self)
        ensures
            r@ == self@,
    {
        TransactionData {
            kind: self.kind.clone(),
            sender: self.sender,
            gas_payment: self.gas_payment,
            gas_price: self.gas_price,
            gas_budget: self.gas_budget,
        }
    }
}

/// The inputs of a transaction: those of its kind, then its gas payment, unless it is
/// the system's own transaction, which pays no gas.
pub open spec fn all_inputs(td: TransactionDataView) -> Seq<InputObjectKind> {
    if is_system_kind(td.kind) {
        kind_inputs(td.kind)
    } else {
        kind_inputs(td.kind).push(InputObjectKind::ImmOrOwnedMoveObject(td.gas_payment))
    }
}

impl TransactionData {
    /// A transaction at the gas price one.
    pub fn new(
        kind: TransactionKind,
        sender: SuiAddress,
        gas_payment: ObjectRef,
        gas_budget: u64,
    ) -> (r: Self)
        ensures
            r@ == (TransactionDataView {
                kind: kind@,
                sender,
                gas_payment,
                gas_price: 1,
                gas_budget,
            }),
            r.kind == kind,
    {
        TransactionData { kind, sender, gas_price: 1, gas_payment, gas_budget }
    }

    /// A transaction at the given gas price.
    pub fn new_with_gas_price(
        kind: TransactionKind,
        sender: SuiAddress,
        gas_payment: ObjectRef,
        gas_budget: u64,
        gas_price: u64,
    ) -> (r: Self)
        ensures
            r@ == (TransactionDataView { kind: kind@, sender, gas_payment, gas_price, gas_budget }),
            r.kind == kind,
    {
        TransactionData { kind, sender, gas_price, gas_payment, gas_budget }
    }

    /// A single call of the function `function` of the module `module` of `package`.
    pub fn new_move_call(
        sender: SuiAddress,
        package: ObjectRef,
        module: Identifier,
        function: Identifier,
        type_arguments: Vec<TypeTag>,
        gas_payment: ObjectRef,
        arguments: Vec<CallArg>,
        gas_budget: u64,
    ) -> (r: Self)
        ensures
            r@ == (TransactionDataView {
                kind: TransactionKindView::Single(
                    SingleTransactionKindView::Call(
                        MoveCallView {
                            package,
                            module: module@,
                            function: function@,
                            type_arguments: views_of(type_arguments@),
                            arguments: views_of(arguments@),
                        },
                    ),
                ),
                sender,
                gas_payment,
                gas_price: 1,
                gas_budget,
            }),
    {
        let kind = TransactionKind::Single(
            SingleTransactionKind::Call(
                MoveCall { package, module, function, type_arguments, arguments },
            ),
        );
        Self::new(kind, sender, gas_payment, gas_budget)
    }

    /// A single transfer of the object `object_ref` to `recipient`.
    pub fn new_transfer(
        recipient: SuiAddress,
        object_ref: ObjectRef,
        sender: SuiAddress,
        gas_payment: ObjectRef,
        gas_budget: u64,
    ) -> (r: Self)
        ensures
            r@ == (TransactionDataView {
                kind: TransactionKindView::Single(
                    SingleTransactionKindView::TransferObject(
                        TransferObject { recipient, object_ref },
                    ),
                ),
                sender,
                gas_payment,
                gas_price: 1,
                gas_budget,
            }),
    {
        let kind = TransactionKind::Single(
            SingleTransactionKind::TransferObject(TransferObject { recipient, object_ref }),
        );
        Self::new(kind, sender, gas_payment, gas_budget)
    }

    /// A single transfer of SUI to `recipient`: `amount`, or the whole balance.
    pub fn new_transfer_sui(
        recipient: SuiAddress,
        sender: SuiAddress,
        amount: Option<u64>,
        gas_payment: ObjectRef,
        gas_budget: u64,
    ) -> (r: Self)
        ensures
            r@ == (TransactionDataView {
                kind: TransactionKindView::Single(
                    SingleTransactionKindView::TransferSui(TransferSui { recipient, amount }),
                ),
                sender,
                gas_payment,
                gas_price: 1,
                gas_budget,
            }),
    {
        let kind = TransactionKind::Single(
            SingleTransactionKind::TransferSui(TransferSui { recipient, amount }),
        );
        Self::new(kind, sender, gas_payment, gas_budget)
    }

    /// A single payment out of `coins`. The lists are stored as they are given: whether
    /// `recipients` and `amounts` agree in length is for execution to judge.
    pub fn new_pay(
        sender: SuiAddress,
        coins: Vec<ObjectRef>,
        recipients: Vec<SuiAddress>,
        amounts: Vec<u64>,
        gas_payment: ObjectRef,
        gas_budget: u64,
    ) -> (r: Self)
        ensures
            r@ == (TransactionDataView {
                kind: TransactionKindView::Single(
                    SingleTransactionKindView::Pay(
                        PayView { coins: coins@, recipients: recipients@, amounts: amounts@ },
                    ),
                ),
                sender,
                gas_payment,
                gas_price: 1,
                gas_budget,
            }),
    {
        let kind = TransactionKind::Single(
            SingleTransactionKind::Pay(Pay { coins, recipients, amounts }),
        );
        Self::new(kind, sender, gas_payment, gas_budget)
    }

    /// A single publication of `modules`, of which `compiled` are the well-formed ones.
    pub fn new_module(
        sender: SuiAddress,
        gas_payment: ObjectRef,
        modules: Vec<Vec<u8>>,
        compiled: Vec<CompiledModule>,
        gas_budget: u64,
    ) -> (r: Self)
        ensures
            r@ == (TransactionDataView {
                kind: TransactionKindView::Single(
                    SingleTransactionKindView::Publish(
                        MoveModulePublishView {
                            modules: views_of(modules@),
                            compiled: views_of(compiled@),
                        },
                    ),
                ),
                sender,
                gas_payment,
                gas_price: 1,
                gas_budget,
            }),
    {
        let kind = TransactionKind::Single(
            SingleTransactionKind::Publish(MoveModulePublish { modules, compiled }),
        );
        Self::new(kind, sender, gas_payment, gas_budget)
    }

    /// The name of the kind's variant.
    pub fn kind_as_str(&self) -> (r: &'static str)
        ensures
            r@ == (if self.kind is Single {
                "Single"@
            } else {
                "Batch"@
            }),
    {
        match &self.kind {
            TransactionKind::Single(_) => "Single",
            TransactionKind::Batch(_) => "Batch",
        }
    }

    /// The object that pays the gas.
    pub fn gas(&self) -> (r: ObjectRef)
        ensures
            r == self.gas_payment,
    {
        self.gas_payment
    }

    /// The sender of the transaction.
    pub fn signer(&self) -> (r: SuiAddress)
        ensures
            r == self.sender,
    {
        self.sender
    }

    /// The object that pays the gas.
    pub fn gas_payment_object_ref(&self) -> (r: &ObjectRef)
        ensures
            *r == self.gas_payment,
    {
        &self.gas_payment
    }

    /// The calls that the transaction makes, in their order.
    pub fn move_calls(&self) -> (r: Vec<&MoveCall>)
        ensures
            r@.len() == concat_calls(singles(self@.kind)).len(),
            forall|i: int|
                0 <= i < r@.len() ==> (#[trigger] r@[i])@ == concat_calls(singles(self@.kind))[i],
    {
        let parts = self.kind.single_transactions();
        let ghost ss = singles(self@.kind);
        let mut out: Vec<&MoveCall> = Vec::new();
        let mut i: usize = 0;
        while i < parts.len()
            invariant
                i <= parts.len(),
                parts@.len() == ss.len(),
                forall|j: int| 0 <= j < parts@.len() ==> (#[trigger] parts@[j])@ == ss[j],
                out@.len() == concat_calls(ss.take(i as int)).len(),
                forall|j: int|
                    0 <= j < out@.len() ==> (#[trigger] out@[j])@ == concat_calls(
                        ss.take(i as int),
                    )[j],
            decreases parts.len() - i,
        {
            assert(ss.take(i as int + 1).drop_last() =~= ss.take(i as int));
            assert(ss.take(i as int + 1).last() == parts@[i as int]@);
            if let Some(call) = parts[i].move_call() {
                out.push(call);
            }
            i += 1;
        }
        assert(ss.take(ss.len() as int) =~= ss);
        out
    }

    /// The inputs of the transaction: those of its kind, then its gas payment, unless
    /// it is the system's own transaction. Refuses a transaction that names one object
    /// twice.
    pub fn input_objects(&self) -> (r: SuiResult<Vec<InputObjectKind>>)
        ensures
            match r {
                Ok(v) => v@ == all_inputs(self@) && distinct_ids(v@),
                Err(e) => e == SuiError::DuplicateObjectRefInput && !distinct_ids(
                    all_inputs(self@),
                ),
            },
    {
        let mut inputs = self.kind.collect_inputs();
        if !self.kind.is_system_tx() {
            inputs.push(InputObjectKind::ImmOrOwnedMoveObject(*self.gas_payment_object_ref()));
        }
        if has_duplicate_ids(&inputs) {
            return Err(SuiError::DuplicateObjectRefInput);
        }
        Ok(inputs)
    }
}

/// A batch without transactions is not well-formed.
pub proof fn lemma_empty_batch_invalid()
    ensures
        !is_valid_kind(TransactionKindView::Batch(Seq::empty())),
{
}

/// A batch that holds a transfer of SUI, a publication or a change of epoch is not
/// well-formed.
pub proof fn lemma_unbatchable_invalid(batch: Seq<SingleTransactionKindView>, i: int)
    requires
        0 <= i < batch.len(),
        batch[i] is TransferSui || batch[i] is Publish || batch[i] is ChangeEpoch,
    ensures
        !is_valid_kind(TransactionKindView::Batch(batch)),
{
    assert(!is_batchable(batch[i]));
}

/// A payment is well-formed as data whatever the lengths of its lists: whether the
/// recipients and the amounts agree in number is for execution to judge.
pub proof fn lemma_pay_stored_verbatim(pay: PayView)
    ensures
        is_valid_kind(TransactionKindView::Single(SingleTransactionKindView::Pay(pay))),
        collected_inputs(SingleTransactionKindView::Pay(pay)).len() == pay.coins.len(),
{
}

/// The system's own transaction has exactly one input, which is also its one shared
/// input: the shared object that holds the system state.
pub proof fn lemma_change_epoch_single_input(td: TransactionDataView)
    requires
        is_system_kind(td.kind),
    ensures
        all_inputs(td) == seq![InputObjectKind::SharedMoveObject(spec_system_state_object_id())],
        distinct_ids(all_inputs(td)),
        shared_among(all_inputs(td)) == seq![spec_system_state_object_id()],
{
    let ss = singles(td.kind);
    assert(ss.drop_last() =~= Seq::<SingleTransactionKindView>::empty());
    assert(concat_inputs(ss.drop_last()) =~= Seq::<InputObjectKind>::empty());
    assert(concat_inputs(ss) =~= collected_inputs(ss.last()));
    let one = all_inputs(td);
    assert(one.last() == InputObjectKind::SharedMoveObject(spec_system_state_object_id()));
    assert(one.drop_last() =~= Seq::<InputObjectKind>::empty());
    assert(shared_among(one.drop_last()) =~= Seq::<ObjectID>::empty());
    assert(shared_among(one) =~= seq![spec_system_state_object_id()]);
}

/// The shared inputs of a transaction are those of its kind: the object that pays the
/// gas is owned, not shared.
pub proof fn lemma_gas_is_not_shared(td: TransactionDataView)
    ensures
        shared_among(all_inputs(td)) == shared_among(kind_inputs(td.kind)),
{
    if !is_system_kind(td.kind) {
        let all = all_inputs(td);
        assert(all.drop_last() =~= kind_inputs(td.kind));
    }
}

} // verus!
