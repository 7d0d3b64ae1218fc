//! What was read of the modules that a transaction publishes, put in its place. The
//! bytes of the modules are what is encoded and signed; what the message layer reads of
//! them serves to name the packages that the publication depends on, and whoever
//! decodes the modules hands it in here.

use crate::codec::{concat_map, encode_seq, views_of};
use crate::move_types::{CompiledModule, CompiledModuleView};
use crate::transaction::{
    MoveModulePublish, MoveModulePublishView, SingleTransactionKind, SingleTransactionKindView,
    TransactionKind, TransactionKindView,
};
use crate::transaction_data::{TransactionData, TransactionDataView};
use crate::wire::{enc_kind, enc_single, enc_transaction_data};
use vstd::prelude::*;

verus! {

/// The single transaction `s` with `c` as what was read of the modules that it
/// publishes. A transaction that publishes nothing is as it was.
pub open spec fn single_with_compiled(
    s: SingleTransactionKindView,
    c: Seq<CompiledModuleView>,
) -> SingleTransactionKindView {
    match s {
        SingleTransactionKindView::Publish(p) => SingleTransactionKindView::Publish(
            MoveModulePublishView { modules: p.modules, compiled: c },
        ),
        _ => s,
    }
}

/// The single transactions `b`, the one at each position with the list of `cs` at that
/// position as what was read of its modules; those for which `cs` has no list are as
/// they were.
pub open spec fn singles_with_compiled(
    b: Seq<SingleTransactionKindView>,
    cs: Seq<Seq<CompiledModuleView>>,
) -> Seq<SingleTransactionKindView> {
    Seq::new(
        b.len(),
        |i: int|
            if i < cs.len() {
                single_with_compiled(b[i], cs[i])
            } else {
                b[i]
            },
    )
}

/// The kind `k` with the lists of `cs` as what was read of the modules of its single
/// transactions, position by position.
pub open spec fn kind_with_compiled(
    k: TransactionKindView,
    cs: Seq<Seq<CompiledModuleView>>,
) -> TransactionKindView {
    match k {
        TransactionKindView::Single(s) => TransactionKindView::Single(
            singles_with_compiled(seq![s], cs)[0],
        ),
        TransactionKindView::Batch(b) => TransactionKindView::Batch(singles_with_compiled(b, cs)),
    }
}

/// The data `td` with the lists of `cs` as what was read of the modules of its single
/// transactions.
pub open spec fn data_with_compiled(
    td: TransactionDataView,
    cs: Seq<Seq<CompiledModuleView>>,
) -> TransactionDataView {
    TransactionDataView {
        kind: kind_with_compiled(td.kind, cs),
        sender: td.sender,
        gas_payment: td.gas_payment,
        gas_price: td.gas_price,
        gas_budget: td.gas_budget,
    }
}

/// The mathematical forms of lists of modules.
pub open spec fn compiled_views(cs: Seq<Vec<CompiledModule>>) -> Seq<Seq<CompiledModuleView>> {
    Seq::new(cs.len(), |i: int| views_of(cs[i]@))
}

/// What was read of the modules of a publication is no part of its encoding.
pub proof fn lemma_single_keeps_encoding(s: SingleTransactionKindView, c: Seq<CompiledModuleView>)
    ensures
        enc_single(single_with_compiled(s, c)) == enc_single(s),
{
}

/// Sequences whose items have the same encodings, position by position, have the same
/// encoding.
pub proof fn lemma_concat_map_same<T>(a: Seq<T>, b: Seq<T>, f: spec_fn(T) -> Seq<u8>)
    requires
        a.len() == b.len(),
        forall|i: int| 0 <= i < a.len() ==> f(#[trigger] a[i]) == f(b[i]),
    ensures
        concat_map(a, f) == concat_map(b, f),
        encode_seq(a, f) == encode_seq(b, f),
    decreases a.len(),
{
    if a.len() > 0 {
        lemma_concat_map_same(a.drop_last(), b.drop_last(), f);
        assert(f(a[a.len() - 1]) == f(b[a.len() - 1]));
    }
}

/// What was read of published modules is no part of the encoding of a kind.
pub proof fn lemma_kind_keeps_encoding(k: TransactionKindView, cs: Seq<Seq<CompiledModuleView>>)
    ensures
        enc_kind(kind_with_compiled(k, cs)) == enc_kind(k),
{
    match k {
        TransactionKindView::Single(s) => {
            if 0 < cs.len() {
                lemma_single_keeps_encoding(s, cs[0]);
            }
        },
        TransactionKindView::Batch(b) => {
            let after = singles_with_compiled(b, cs);
            assert forall|i: int| 0 <= i < after.len() implies enc_single(#[trigger] after[i])
                == enc_single(b[i]) by {
                if i < cs.len() {
                    lemma_single_keeps_encoding(b[i], cs[i]);
                }
            }
            lemma_concat_map_same(after, b, |s: SingleTransactionKindView| enc_single(s));
        },
    }
}

/// What was read of published modules is no part of the encoding of the data of a
/// transaction, and so none of what is signed and of what the digest is taken of.
pub proof fn lemma_data_keeps_encoding(td: TransactionDataView, cs: Seq<Seq<CompiledModuleView>>)
    ensures
        enc_transaction_data(data_with_compiled(td, cs)) == enc_transaction_data(td),
{
    lemma_kind_keeps_encoding(td.kind, cs);
}

/// A copy of a list of modules.
pub fn clone_modules(v: &Vec<CompiledModule>) -> (r: Vec<CompiledModule>)
    ensures
        views_of(r@) == views_of(v@),
{
    let mut r: Vec<CompiledModule> = Vec::new();
    let mut i: usize = 0;
    while i < v.len()
        invariant
            i <= v.len(),
            r.len() == i,
            forall|j: int| 0 <= j < i ==> r@[j]@ == v@[j]@,
        decreases v.len() - i,
    {
        r.push(v[i].clone());
        i += 1;
    }
    assert(views_of(r@) =~= views_of(v@));
    r
}

impl SingleTransactionKind {
    /// The transaction with `compiled` as what was read of the modules that it
    /// publishes. A transaction that publishes nothing is handed back as it is.
    pub fn with_compiled(self, compiled: Vec<CompiledModule>) -> (r: Self)
        ensures
            r@ == single_with_compiled(self@, views_of(compiled@)),
            enc_single(r@) == enc_single(self@),
    {
        match self {
            SingleTransactionKind::Publish(p) => SingleTransactionKind::Publish(
                MoveModulePublish { modules: p.modules, compiled },
            ),
            other => other,
        }
    }
}

impl TransactionKind {
    /// The kind with the lists of `compiled` as what was read of the modules of its
    /// single transactions, the first list for the first transaction and so on. A
    /// transaction that publishes nothing, or for which there is no list, stays as it
    /// is.
    pub fn with_compiled(self, compiled: &Vec<Vec<CompiledModule>>) -> (r: Self)
        ensures
            r@ == kind_with_compiled(self@, compiled_views(compiled@)),
            enc_kind(r@) == enc_kind(self@),
    {
        let ghost cs = compiled_views(compiled@);
        proof {
            lemma_kind_keeps_encoding(self@, cs);
        }
        match self {
            TransactionKind::Single(single) => {
                if compiled.len() > 0 {
                    TransactionKind::Single(single.with_compiled(clone_modules(&compiled[0])))
                } else {
                    TransactionKind::Single(single)
                }
            },
            TransactionKind::Batch(batch) => {
                let ghost before = views_of(batch@);
                let mut out: Vec<SingleTransactionKind> = Vec::new();
                let mut i: usize = 0;
                while i < batch.len()
                    invariant
                        i <= batch.len(),
                        out.len() == i,
                        before == views_of(batch@),
                        cs == compiled_views(compiled@),
                        forall|j: int| 0 <= j < i ==>
                            (#[trigger] out@[j])@ == singles_with_compiled(before, cs)[j],
                    decreases batch.len() - i,
                {
                    let single = batch[i].clone();
                    let next = if i < compiled.len() {
                        single.with_compiled(clone_modules(&compiled[i]))
                    } else {
                        single
                    };
                    out.push(next);
                    i += 1;
                }
                assert(views_of(out@) =~= singles_with_compiled(before, cs));
                TransactionKind::Batch(out)
            },
        }
    }
}

impl TransactionData {
    /// The data with the lists of `compiled` as what was read of the modules that its
    /// single transactions publish, the first list for the first transaction and so
    /// on. The encoding, and with it what is signed, stays the same.
    pub fn with_compiled(self, compiled: &Vec<Vec<CompiledModule>>) -> (r: Self)
        ensures
            r@ == data_with_compiled(self@, compiled_views(compiled@)),
            enc_transaction_data(r@) == enc_transaction_data(self@),
    {
        proof {
            lemma_data_keeps_encoding(self@, compiled_views(compiled@));
        }
        TransactionData {
            kind: self.kind.with_compiled(compiled),
            sender: self.sender,
            gas_payment: self.gas_payment,
            gas_price: self.gas_price,
            gas_budget: self.gas_budget,
        }
    }
}

} // verus!
