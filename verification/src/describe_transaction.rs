//! The descriptions of transactions, effects and certificates that people read.

use crate::base_types::{ObjectRef, SequenceNumber};
use crate::certified::CertifiedTransaction;
use crate::codec::views_of;
use crate::describe::{address_text, object_id_text};
use crate::effects::TransactionEffects;
use crate::object::Owner;
use crate::text::{decimal_text, hex_text, push_decimal, push_hex, short_hex_text, text};
use crate::transaction::{
    SingleTransactionKind, SingleTransactionKindView, TransactionKind, TransactionKindView,
};
use vstd::prelude::*;
use vstd::string::StringExecFns;

verus! {

/// `format!` with `{:?}`: the text that the value's `Debug` gives. Nothing is stated of
/// it.
#[verifier::external_body]
fn debug_text<T: std::fmt::Debug>(value: &T) -> String {
    format!("{:?}", value)
}

/// The three lines that describe an object reference.
pub open spec fn object_ref_text(r: ObjectRef) -> Seq<char> {
    "Object ID : "@ + object_id_text(r.0) + "\n"@ + "Sequence Number : SequenceNumber("@
        + decimal_text(r.1.0 as nat) + ")\n"@ + "Object Digest : "@ + hex_text(r.2.0@, false) + "\n"@
}

/// The descriptions of the coins `coins`, one after the other.
pub open spec fn coins_text(coins: Seq<ObjectRef>) -> Seq<char>
    decreases coins.len(),
{
    if coins.len() == 0 {
        Seq::empty()
    } else {
        coins_text(coins.drop_last()) + object_ref_text(coins.last())
    }
}

/// The addresses `recipients`, a line each.
pub open spec fn recipients_text(recipients: Seq<crate::base_types::SuiAddress>) -> Seq<char>
    decreases recipients.len(),
{
    if recipients.len() == 0 {
        Seq::empty()
    } else {
        recipients_text(recipients.drop_last()) + address_text(recipients.last()) + "\n"@
    }
}

/// The amounts `amounts`, a line each.
pub open spec fn amounts_text(amounts: Seq<u64>) -> Seq<char>
    decreases amounts.len(),
{
    if amounts.len() == 0 {
        Seq::empty()
    } else {
        amounts_text(amounts.drop_last()) + decimal_text(amounts.last() as nat) + "\n"@
    }
}

/// The description of a single transaction. For a call, `arguments` and
/// `type_arguments` are the texts that stand for its arguments.
pub open spec fn single_kind_text(
    k: SingleTransactionKindView,
    arguments: Seq<char>,
    type_arguments: Seq<char>,
) -> Seq<char> {
    match k {
        SingleTransactionKindView::TransferObject(t) => "Transaction Kind : Transfer Object\n"@
            + "Recipient : "@ + address_text(t.recipient) + "\n"@ + object_ref_text(t.object_ref),
        SingleTransactionKindView::TransferSui(t) => "Transaction Kind : Transfer SUI\n"@
            + "Recipient : "@ + address_text(t.recipient) + "\n"@ + (match t.amount {
            Some(amount) => "Amount: "@ + decimal_text(amount as nat) + "\n"@,
            None => "Amount: Full Balance\n"@,
        }),
        SingleTransactionKindView::Pay(p) => "Transaction Kind : Pay\n"@ + "Coins:\n"@ + coins_text(
            p.coins,
        ) + "Recipients:\n"@ + recipients_text(p.recipients) + "Amounts:\n"@ + amounts_text(
            p.amounts,
        ),
        SingleTransactionKindView::Publish(_) => "Transaction Kind : Publish\n"@,
        SingleTransactionKindView::Call(c) => "Transaction Kind : Call\n"@ + "Package ID : 0x"@
            + short_hex_text(c.package.0.0@) + "\n"@ + "Module : "@ + Seq::new(
            c.module.len(),
            |i: int| c.module[i] as char,
        ) + "\n"@ + "Function : "@ + Seq::new(c.function.len(), |i: int| c.function[i] as char)
            + "\n"@ + "Arguments : "@ + arguments + "\n"@ + "Type Arguments : "@ + type_arguments
            + "\n"@,
        SingleTransactionKindView::ChangeEpoch(e) => "Transaction Kind: Epoch Change\n"@
            + "New epoch ID: "@ + decimal_text(e.epoch as nat) + "\n"@ + "Storage gas reward: "@
            + decimal_text(e.storage_charge as nat) + "\n"@ + "Computation gas reward: "@
            + decimal_text(e.computation_charge as nat) + "\n"@,
    }
}

/// Appends the three lines that describe an object reference.
fn push_object_ref(out: &mut String, r: &ObjectRef)
    ensures
        final(out)@ == old(out)@ + object_ref_text(*r),
{
    let ghost start = out@;
    out.append("Object ID : ");
    out.append(r.0.to_string().as_str());
    out.append("\n");
    out.append("Sequence Number : SequenceNumber(");
    push_decimal(out, r.1.value());
    out.append(")\n");
    out.append("Object Digest : ");
    push_hex(out, r.2.as_bytes(), false);
    out.append("\n");
    assert(out@ =~= start + object_ref_text(*r));
}

impl SingleTransactionKind {
    /// The description of the transaction, a line for each thing to say. The arguments
    /// of a call are given as their `Debug` gives them.
    pub fn to_string(&self) -> (r: String)
        ensures
            exists|arguments: Seq<char>, type_arguments: Seq<char>|
                r@ == #[trigger] single_kind_text(self@, arguments, type_arguments),
    {
        let mut writer = text("");
        proof {
            reveal_strlit("");
        }
        let ghost empty = Seq::<char>::empty();
        match self {
            SingleTransactionKind::TransferObject(t) => {
                writer.append("Transaction Kind : Transfer Object\n");
                writer.append("Recipient : ");
                writer.append(t.recipient.to_string().as_str());
                writer.append("\n");
                push_object_ref(&mut writer, &t.object_ref);
                assert(writer@ =~= single_kind_text(self@, empty, empty));
            },
            SingleTransactionKind::TransferSui(t) => {
                writer.append("Transaction Kind : Transfer SUI\n");
                writer.append("Recipient : ");
                writer.append(t.recipient.to_string().as_str());
                writer.append("\n");
                if let Some(amount) = t.amount {
                    writer.append("Amount: ");
                    push_decimal(&mut writer, amount);
                    writer.append("\n");
                } else {
                    writer.append("Amount: Full Balance\n");
                }
                assert(writer@ =~= single_kind_text(self@, empty, empty));
            },
            SingleTransactionKind::Pay(p) => {
                writer.append("Transaction Kind : Pay\n");
                writer.append("Coins:\n");
                let ghost head = writer@;
                let mut i: usize = 0;
                while i < p.coins.len()
                    invariant
                        i <= p.coins.len(),
                        writer@ == head + coins_text(p.coins@.take(i as int)),
                    decreases p.coins.len() - i,
                {
                    assert(p.coins@.take(i as int + 1).drop_last() =~= p.coins@.take(i as int));
                    push_object_ref(&mut writer, &p.coins[i]);
                    assert(writer@ =~= head + coins_text(p.coins@.take(i as int + 1)));
                    i += 1;
                }
                assert(p.coins@.take(p.coins@.len() as int) =~= p.coins@);
                writer.append("Recipients:\n");
                let ghost head = writer@;
                let mut i: usize = 0;
                while i < p.recipients.len()
                    invariant
                        i <= p.recipients.len(),
                        writer@ == head + recipients_text(p.recipients@.take(i as int)),
                    decreases p.recipients.len() - i,
                {
                    assert(p.recipients@.take(i as int + 1).drop_last() =~= p.recipients@.take(
                        i as int,
                    ));
                    writer.append(p.recipients[i].to_string().as_str());
                    writer.append("\n");
                    assert(writer@ =~= head + recipients_text(p.recipients@.take(i as int + 1)));
                    i += 1;
                }
                assert(p.recipients@.take(p.recipients@.len() as int) =~= p.recipients@);
                writer.append("Amounts:\n");
                let ghost head = writer@;
                let mut i: usize = 0;
                while i < p.amounts.len()
                    invariant
                        i <= p.amounts.len(),
                        writer@ == head + amounts_text(p.amounts@.take(i as int)),
                    decreases p.amounts.len() - i,
                {
                    assert(p.amounts@.take(i as int + 1).drop_last() =~= p.amounts@.take(i as int));
                    push_decimal(&mut writer, p.amounts[i]);
                    writer.append("\n");
                    assert(writer@ =~= head + amounts_text(p.amounts@.take(i as int + 1)));
                    i += 1;
                }
                assert(p.amounts@.take(p.amounts@.len() as int) =~= p.amounts@);
                assert(writer@ =~= single_kind_text(self@, empty, empty));
            },
            SingleTransactionKind::Publish(_) => {
                writer.append("Transaction Kind : Publish\n");
                assert(writer@ =~= single_kind_text(self@, empty, empty));
            },
            SingleTransactionKind::Call(c) => {
                writer.append("Transaction Kind : Call\n");
                writer.append("Package ID : ");
                writer.append(c.package.0.to_hex_literal().as_str());
                writer.append("\n");
                writer.append("Module : ");
                crate::describe::push_identifier(&mut writer, &c.module);
                writer.append("\n");
                writer.append("Function : ");
                crate::describe::push_identifier(&mut writer, &c.function);
                writer.append("\n");
                writer.append("Arguments : ");
                let arguments = debug_text(&c.arguments);
                writer.append(arguments.as_str());
                writer.append("\n");
                writer.append("Type Arguments : ");
                let type_arguments = debug_text(&c.type_arguments);
                writer.append(type_arguments.as_str());
                writer.append("\n");
                proof {
                    reveal_strlit("Package ID : ");
                    reveal_strlit("Package ID : 0x");
                    reveal_strlit("0x");
                }
                assert(writer@ =~= single_kind_text(self@, arguments@, type_arguments@));
            },
            SingleTransactionKind::ChangeEpoch(e) => {
                writer.append("Transaction Kind: Epoch Change\n");
                writer.append("New epoch ID: ");
                push_decimal(&mut writer, e.epoch);
                writer.append("\n");
                writer.append("Storage gas reward: ");
                push_decimal(&mut writer, e.storage_charge);
                writer.append("\n");
                writer.append("Computation gas reward: ");
                push_decimal(&mut writer, e.computation_charge);
                writer.append("\n");
                assert(writer@ =~= single_kind_text(self@, empty, empty));
            },
        }
        writer
    }
}

/// The descriptions of the single transactions `b`, each followed by an empty line,
/// where `texts` holds the texts that stand for the arguments of each.
pub open spec fn batch_text(
    b: Seq<SingleTransactionKindView>,
    texts: Seq<(Seq<char>, Seq<char>)>,
) -> Seq<char>
    decreases b.len(),
{
    if b.len() == 0 {
        Seq::empty()
    } else {
        batch_text(b.drop_last(), texts.drop_last()) + single_kind_text(
            b.last(),
            texts.last().0,
            texts.last().1,
        ) + "\n"@
    }
}

/// The description of a kind, where `texts` holds, for each single transaction, the
/// texts that stand for its arguments.
pub open spec fn kind_text(
    k: TransactionKindView,
    texts: Seq<(Seq<char>, Seq<char>)>,
) -> Seq<char> {
    match k {
        TransactionKindView::Single(s) => single_kind_text(s, texts[0].0, texts[0].1),
        TransactionKindView::Batch(b) => "Transaction Kind : Batch\n"@
            + "List of transactions in the batch:\n"@ + batch_text(b, texts),
    }
}

impl TransactionKind {
    /// The description of the kind: that of the single transaction, or those of the
    /// transactions of the batch under a heading.
    pub fn to_string(&self) -> (r: String)
        ensures
            exists|texts: Seq<(Seq<char>, Seq<char>)>|
                texts.len() == crate::transaction_data::singles(self@).len()
                    && r@ == #[trigger] kind_text(self@, texts),
    {
        match self {
            TransactionKind::Single(s) => {
                let r = s.to_string();
                proof {
                    let (a, t) = choose|a: Seq<char>, t: Seq<char>|
                        r@ == #[trigger] single_kind_text(s@, a, t);
                    let texts = seq![(a, t)];
                    assert(r@ == kind_text(self@, texts));
                }
                r
            },
            TransactionKind::Batch(b) => {
                let mut writer = text("Transaction Kind : Batch\n");
                writer.append("List of transactions in the batch:\n");
                let ghost head = writer@;
                let ghost views = views_of(b@);
                let ghost mut texts: Seq<(Seq<char>, Seq<char>)> = Seq::empty();
                let mut i: usize = 0;
                while i < b.len()
                    invariant
                        i <= b.len(),
                        views == views_of(b@),
                        texts.len() == i,
                        writer@ == head + batch_text(views.take(i as int), texts),
                    decreases b.len() - i,
                {
                    let one = b[i].to_string();
                    writer.append(one.as_str());
                    writer.append("\n");
                    proof {
                        let (a, t) = choose|a: Seq<char>, t: Seq<char>|
                            one@ == #[trigger] single_kind_text(b@[i as int]@, a, t);
                        let next = texts.push((a, t));
                        assert(next.drop_last() =~= texts);
                        assert(views.take(i as int + 1).drop_last() =~= views.take(i as int));
                        assert(writer@ =~= head + batch_text(views.take(i as int + 1), next));
                        texts = next;
                    }
                    i += 1;
                }
                proof {
                    assert(views.take(b@.len() as int) =~= views);
                    assert(writer@ =~= kind_text(self@, texts));
                }
                writer
            },
        }
    }
}

/// What an owner says.
pub open spec fn owner_text(o: Owner) -> Seq<char> {
    match o {
        Owner::AddressOwner(a) => "Account Address ( "@ + address_text(a) + " )"@,
        Owner::ObjectOwner(a) => "Object ID: ( "@ + address_text(a) + " )"@,
        Owner::Immutable => "Immutable"@,
        Owner::Shared => "Shared"@,
    }
}

impl Owner {
    /// What the owner says.
    pub fn to_string(&self) -> (r: String)
        ensures
            r@ == owner_text(*self),
    {
        match self {
            Owner::AddressOwner(a) => {
                let mut out = text("Account Address ( ");
                out.append(a.to_string().as_str());
                out.append(" )");
                out
            },
            Owner::ObjectOwner(a) => {
                let mut out = text("Object ID: ( ");
                out.append(a.to_string().as_str());
                out.append(" )");
                out
            },
            Owner::Immutable => text("Immutable"),
            Owner::Shared => text("Shared"),
        }
    }
}

/// A line for each object of `s` with its owner.
pub open spec fn owned_lines(s: Seq<(ObjectRef, Owner)>) -> Seq<char>
    decreases s.len(),
{
    if s.len() == 0 {
        Seq::empty()
    } else {
        owned_lines(s.drop_last()) + "  - ID: "@ + object_id_text(s.last().0.0) + " , Owner: "@
            + owner_text(s.last().1) + "\n"@
    }
}

/// A line for each object of `s`.
pub open spec fn plain_lines(s: Seq<ObjectRef>) -> Seq<char>
    decreases s.len(),
{
    if s.len() == 0 {
        Seq::empty()
    } else {
        plain_lines(s.drop_last()) + "  - ID: "@ + object_id_text(s.last().0) + "\n"@
    }
}

/// The heading `heading` and a line for each object of `s` with its owner; nothing
/// where there is no object.
pub open spec fn owned_section(heading: Seq<char>, s: Seq<(ObjectRef, Owner)>) -> Seq<char> {
    if s.len() == 0 {
        Seq::empty()
    } else {
        heading + owned_lines(s)
    }
}

/// The heading `heading` and a line for each object of `s`; nothing where there is no
/// object.
pub open spec fn plain_section(heading: Seq<char>, s: Seq<ObjectRef>) -> Seq<char> {
    if s.len() == 0 {
        Seq::empty()
    } else {
        heading + plain_lines(s)
    }
}

/// The description of effects, where `status` is the text that stands for the status.
pub open spec fn effects_text(e: TransactionEffects, status: Seq<char>) -> Seq<char> {
    "Status : "@ + status + "\n"@ + owned_section("Created Objects:\n"@, e.created@)
        + owned_section("Mutated Objects:\n"@, e.mutated@) + plain_section(
        "Deleted Objects:\n"@,
        e.deleted@,
    ) + plain_section("Wrapped Objects:\n"@, e.wrapped@) + owned_section(
        "Unwrapped Objects:\n"@,
        e.unwrapped@,
    )
}

/// Appends a heading and a line for each object of `s` with its owner; nothing where
/// there is no object.
fn push_owned_section(out: &mut String, heading: &str, s: &Vec<(ObjectRef, Owner)>)
    ensures
        final(out)@ == old(out)@ + owned_section(heading@, s@),
{
    let ghost start = out@;
    if s.len() == 0 {
        assert(out@ =~= start + owned_section(heading@, s@));
        return ;
    }
    out.append(heading);
    let ghost head = out@;
    let mut i: usize = 0;
    while i < s.len()
        invariant
            i <= s.len(),
            out@ == head + owned_lines(s@.take(i as int)),
        decreases s.len() - i,
    {
        assert(s@.take(i as int + 1).drop_last() =~= s@.take(i as int));
        out.append("  - ID: ");
        out.append(s[i].0.0.to_string().as_str());
        out.append(" , Owner: ");
        out.append(s[i].1.to_string().as_str());
        out.append("\n");
        assert(out@ =~= head + owned_lines(s@.take(i as int + 1)));
        i += 1;
    }
    assert(s@.take(s@.len() as int) =~= s@);
    assert(out@ =~= start + owned_section(heading@, s@));
}

/// Appends a heading and a line for each object of `s`; nothing where there is no
/// object.
fn push_plain_section(out: &mut String, heading: &str, s: &Vec<ObjectRef>)
    ensures
        final(out)@ == old(out)@ + plain_section(heading@, s@),
{
    let ghost start = out@;
    if s.len() == 0 {
        assert(out@ =~= start + plain_section(heading@, s@));
        return ;
    }
    out.append(heading);
    let ghost head = out@;
    let mut i: usize = 0;
    while i < s.len()
        invariant
            i <= s.len(),
            out@ == head + plain_lines(s@.take(i as int)),
        decreases s.len() - i,
    {
        assert(s@.take(i as int + 1).drop_last() =~= s@.take(i as int));
        out.append("  - ID: ");
        out.append(s[i].0.to_string().as_str());
        out.append("\n");
        assert(out@ =~= head + plain_lines(s@.take(i as int + 1)));
        i += 1;
    }
    assert(s@.take(s@.len() as int) =~= s@);
    assert(out@ =~= start + plain_section(heading@, s@));
}

impl TransactionEffects {
    /// The description of the effects: the status, as its `Debug` gives it, and the
    /// objects created, mutated, deleted, wrapped and unwrapped, where there are any.
    pub fn to_string(&self) -> (r: String)
        ensures
            exists|status: Seq<char>| r@ == #[trigger] effects_text(*self, status),
    {
        let mut writer = text("Status : ");
        let status = debug_text(&self.status);
        writer.append(status.as_str());
        writer.append("\n");
        push_owned_section(&mut writer, "Created Objects:\n", &self.created);
        push_owned_section(&mut writer, "Mutated Objects:\n", &self.mutated);
        push_plain_section(&mut writer, "Deleted Objects:\n", &self.deleted);
        push_plain_section(&mut writer, "Wrapped Objects:\n", &self.wrapped);
        push_owned_section(&mut writer, "Unwrapped Objects:\n", &self.unwrapped);
        assert(writer@ =~= effects_text(*self, status@));
        writer
    }
}

/// The description of a certificate, where `hash` and `bitmap` are the texts that
/// stand for its digest and for its signers, and `texts` those for the arguments of its
/// calls.
pub open spec fn certificate_text(
    k: TransactionKindView,
    hash: Seq<char>,
    bitmap: Seq<char>,
    texts: Seq<(Seq<char>, Seq<char>)>,
) -> Seq<char> {
    "Transaction Hash: "@ + hash + "\n"@ + "Signed Authorities Bitmap : "@ + bitmap + "\n"@
        + kind_text(k, texts)
}

impl CertifiedTransaction {
    /// The description of the certificate: its digest and its signers, as their `Debug`
    /// gives them, and the description of what it asks for.
    pub fn to_string(&self) -> (r: String)
        ensures
            exists|hash: Seq<char>, bitmap: Seq<char>, texts: Seq<(Seq<char>, Seq<char>)>|
                texts.len() == crate::transaction_data::singles(self.data().data.kind).len()
                    && r@ == #[trigger] certificate_text(self.data().data.kind, hash, bitmap,
                    texts),
    {
        let mut writer = text("Transaction Hash: ");
        let digest = self.compute_digest();
        let hash = debug_text(&digest);
        writer.append(hash.as_str());
        writer.append("\n");
        writer.append("Signed Authorities Bitmap : ");
        let bitmap = debug_text(&self.auth_sign_info().signers_map);
        writer.append(bitmap.as_str());
        writer.append("\n");
        let kind = self.signed_data().data.kind.to_string();
        writer.append(kind.as_str());
        proof {
            let texts = choose|texts: Seq<(Seq<char>, Seq<char>)>|
                texts.len() == crate::transaction_data::singles(self.data().data.kind).len()
                    && kind@ == #[trigger] kind_text(self.data().data.kind, texts);
            assert(writer@ =~= certificate_text(self.data().data.kind, hash@, bitmap@, texts));
        }
        writer
    }
}

} // verus!
