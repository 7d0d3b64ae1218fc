//! The data model of transactions: what a client asks for, alone or in a batch, and the
//! objects that it takes as inputs.

use crate::base_types::{
    object_start_version, spec_object_start_version, spec_system_state_object_id,
    sui_system_state_object_id, AccountAddress, ObjectID, ObjectRef, SequenceNumber, SuiAddress,
};
use crate::codec::views_of;
use crate::error::{SuiError, SuiResult};
use crate::lex::{
    has_key, insert_sorted, lemma_sorted_unique, lex_lt, sorted_by_key, strictly_sorted, ByteKey,
};
use crate::move_types::{CompiledModule, CompiledModuleView, Identifier, ModuleId, TypeTag};
use vstd::prelude::*;

verus! {

/// The epoch of a committee.
pub type EpochId = u64;

/// An object handed to a Move call.
#[derive(Clone, Copy, Debug, PartialEq, Eq, Hash)]
pub enum ObjectArg {
    /// A Move object, either immutable, or owned mutable.
    ImmOrOwnedObject(ObjectRef),
    /// A Move object that is shared and mutable.
    SharedObject(ObjectID),
}

/// An argument of a Move call.
#[derive(Debug, PartialEq, Eq, Hash)]
pub enum CallArg {
    /// Bytes that hold no struct and no object.
    Pure(Vec<u8>),
    /// An object.
    Object(ObjectArg),
    /// A vector of objects.
    ObjVec(Vec<ObjectArg>),
}

/// The mathematical form of a `CallArg`.
pub enum CallArgView {
    Pure(Seq<u8>),
    Object(ObjectArg),
    ObjVec(Seq<ObjectArg>),
}

impl View for CallArg {
    type V = CallArgView;

    open spec fn view(&self) -> CallArgView {
        match self {
            CallArg::Pure(b) => CallArgView::Pure(b@),
            CallArg::Object(o) => CallArgView::Object(*o),
            CallArg::ObjVec(v) => CallArgView::ObjVec(v@),
        }
    }
}

impl Clone for CallArg {
    fn clone(&self) -> (r: Self)
        ensures
            r@ == self@,
    {
        match self {
            CallArg::Pure(b) => CallArg::Pure(b.clone()),
            CallArg::Object(o) => CallArg::Object(*o),
            CallArg::ObjVec(v) => CallArg::ObjVec(clone_flat(v)),
        }
    }
}

/// A copy of a vector whose items copy bit for bit.
pub fn clone_flat<T: Copy>(v: &Vec<T>) -> (r: Vec<T>)
    ensures
        r@ == v@,
{
    let mut r: Vec<T> = Vec::new();
    let mut i: usize = 0;
    while i < v.len()
        invariant
            i <= v.len(),
            r@ == v@.take(i as int),
        decreases v.len() - i,
    {
        r.push(v[i]);
        assert(r@ =~= v@.take(i as int + 1));
        i += 1;
    }
    assert(v@.take(v.len() as int) =~= v@);
    r
}

/// Hands an object to a new owner.
#[derive(Clone, Copy, Debug, PartialEq, Eq, Hash)]
pub struct TransferObject {
    pub recipient: SuiAddress,
    pub object_ref: ObjectRef,
}

/// Calls a function of a published Move module.
#[derive(Debug, PartialEq, Eq, Hash)]
pub struct MoveCall {
    /// The package, by reference, so that a client can check the package that an order
    /// used without executing the order again.
    pub package: ObjectRef,
    pub module: Identifier,
    pub function: Identifier,
    pub type_arguments: Vec<TypeTag>,
    pub arguments: Vec<CallArg>,
}

/// The mathematical form of a `MoveCall`.
pub struct MoveCallView {
    pub package: ObjectRef,
    pub module: Seq<u8>,
    pub function: Seq<u8>,
    pub type_arguments: Seq<Seq<u8>>,
    pub arguments: Seq<CallArgView>,
}

impl View for MoveCall {
    type V = MoveCallView;

    open spec fn view(&self) -> MoveCallView {
        MoveCallView {
            package: self.package,
            module: self.module@,
            function: self.function@,
            type_arguments: views_of(self.type_arguments@),
            arguments: views_of(self.arguments@),
        }
    }
}

/// A copy of a vector of type tags.
fn clone_type_tags(v: &Vec<TypeTag>) -> (r: Vec<TypeTag>)
    ensures
        views_of(r@) == views_of(v@),
{
    let mut r: Vec<TypeTag> = Vec::new();
    let mut i: usize = 0;
    while i < v.len()
        invariant
            i <= v.len(),
            r.len() == i,
            forall|j: int| 0 <= j < i ==> r@[j]@ == v@[j]@,
        decreases v.len() - i,
    {
        r.push(v[i].clone());
        i += 1;
    }
    assert(views_of(r@) =~= views_of(v@));
    r
}

/// A copy of a vector of call arguments.
fn clone_call_args(v: &Vec<CallArg>) -> (r: Vec<CallArg>)
    ensures
        views_of(r@) == views_of(v@),
{
    let mut r: Vec<CallArg> = Vec::new();
    let mut i: usize = 0;
    while i < v.len()
        invariant
            i <= v.len(),
            r.len() == i,
            forall|j: int| 0 <= j < i ==> r@[j]@ == v@[j]@,
        decreases v.len() - i,
    {
        r.push(v[i].clone());
        i += 1;
    }
    assert(views_of(r@) =~= views_of(v@));
    r
}

impl Clone for MoveCall {
    fn clone(&self) -> (r: Self)
        ensures
            r@ == self@,
    {
        MoveCall {
            package: self.package,
            module: self.module.clone(),
            function: self.function.clone(),
            type_arguments: clone_type_tags(&self.type_arguments),
            arguments: clone_call_args(&self.arguments),
        }
    }
}

/// Publishes the modules of a package. `compiled` holds, in their order, what the
/// message layer reads of those of `modules` that are well-formed; the bytes alone are
/// encoded and signed.
#[derive(Debug, PartialEq, Eq, Hash)]
pub struct MoveModulePublish {
    pub modules: Vec<Vec<u8>>,
    pub compiled: Vec<CompiledModule>,
}

/// The mathematical form of a `MoveModulePublish`.
pub struct MoveModulePublishView {
    pub modules: Seq<Seq<u8>>,
    pub compiled: Seq<CompiledModuleView>,
}

impl View for MoveModulePublish {
    type V = MoveModulePublishView;

    open spec fn view(&self) -> MoveModulePublishView {
        MoveModulePublishView {
            modules: views_of(self.modules@),
            compiled: views_of(self.compiled@),
        }
    }
}

impl Clone for MoveModulePublish {
    fn clone(&self) -> (r: Self)
        ensures
            r@ == self@,
    {
        let mut modules: Vec<Vec<u8>> = Vec::new();
        let mut i: usize = 0;
        while i < self.modules.len()
            invariant
                i <= self.modules.len(),
                modules.len() == i,
                forall|j: int| 0 <= j < i ==> modules@[j]@ == self.modules@[j]@,
            decreases self.modules.len() - i,
        {
            modules.push(self.modules[i].clone());
            i += 1;
        }
        let mut compiled: Vec<CompiledModule> = Vec::new();
        let mut k: usize = 0;
        while k < self.compiled.len()
            invariant
                k <= self.compiled.len(),
                compiled.len() == k,
                forall|j: int| 0 <= j < k ==> compiled@[j]@ == self.compiled@[j]@,
            decreases self.compiled.len() - k,
        {
            compiled.push(self.compiled[k].clone());
            k += 1;
        }
        let r = MoveModulePublish { modules, compiled };
        assert(r@.modules =~= self@.modules);
        assert(r@.compiled =~= self@.compiled);
        r
    }
}

/// Sends SUI from the gas coin; the whole balance where `amount` is `None`.
#[derive(Clone, Copy, Debug, PartialEq, Eq, Hash)]
pub struct TransferSui {
    pub recipient: SuiAddress,
    pub amount: Option<u64>,
}

/// Pays each recipient the amount at its position, out of the input coins.
#[derive(Debug, PartialEq, Eq, Hash)]
pub struct Pay {
    /// The coins to be used for payment.
    pub coins: Vec<ObjectRef>,
    /// The addresses that will receive payment.
    pub recipients: Vec<SuiAddress>,
    /// The amounts each recipient will receive.
    pub amounts: Vec<u64>,
}

/// The mathematical form of a `Pay`.
pub struct PayView {
    pub coins: Seq<ObjectRef>,
    pub recipients: Seq<SuiAddress>,
    pub amounts: Seq<u64>,
}

impl View for Pay {
    type V = PayView;

    open spec fn view(&self) -> PayView {
        PayView { coins: self.coins@, recipients: self.recipients@, amounts: self.amounts@ }
    }
}

impl Clone for Pay {
    fn clone(&self) -> (r: Self)
        ensures
            r@ == self@,
    {
        Pay {
            coins: clone_flat(&self.coins),
            recipients: clone_flat(&self.recipients),
            amounts: clone_flat(&self.amounts),
        }
    }
}

/// Moves the system to its next epoch. Only validators make it, once per epoch.
#[derive(Clone, Copy, Debug, PartialEq, Eq, Hash)]
pub struct ChangeEpoch {
    /// The next (to become) epoch.
    pub epoch: EpochId,
    /// The total amount of gas charged for storage during the epoch.
    pub storage_charge: u64,
    /// The total amount of gas charged for computation during the epoch.
    pub computation_charge: u64,
}

/// One thing that a transaction asks for.
#[derive(Debug, PartialEq, Eq, Hash)]
pub enum SingleTransactionKind {
    /// Initiate an object transfer between addresses.
    TransferObject(TransferObject),
    /// Publish a new Move module.
    Publish(MoveModulePublish),
    /// Call a function in a published Move module.
    Call(MoveCall),
    /// Initiate a SUI coin transfer between addresses.
    TransferSui(TransferSui),
    /// Pay multiple recipients using multiple input coins.
    Pay(Pay),
    /// A system transaction that updates epoch information on-chain. It uses no gas
    /// object, and no validator signs one that comes from outside.
    ChangeEpoch(ChangeEpoch),
}

/// The mathematical form of a `SingleTransactionKind`.
pub enum SingleTransactionKindView {
    TransferObject(TransferObject),
    Publish(MoveModulePublishView),
    Call(MoveCallView),
    TransferSui(TransferSui),
    Pay(PayView),
    ChangeEpoch(ChangeEpoch),
}

impl View for SingleTransactionKind {
    type V = SingleTransactionKindView;

    open spec fn view(&self) -> SingleTransactionKindView {
        match self {
            SingleTransactionKind::TransferObject(t) => SingleTransactionKindView::TransferObject(
                *t,
            ),
            SingleTransactionKind::Publish(p) => SingleTransactionKindView::Publish(p@),
            SingleTransactionKind::Call(c) => SingleTransactionKindView::Call(c@),
            SingleTransactionKind::TransferSui(t) => SingleTransactionKindView::TransferSui(*t),
            SingleTransactionKind::Pay(p) => SingleTransactionKindView::Pay(p@),
            SingleTransactionKind::ChangeEpoch(e) => SingleTransactionKindView::ChangeEpoch(*e),
        }
    }
}

impl Clone for SingleTransactionKind {
    fn clone(&self) -> (r: Self)
        ensures
            r@ == self@,
    {
        match self {
            SingleTransactionKind::TransferObject(t) => SingleTransactionKind::TransferObject(*t),
            SingleTransactionKind::Publish(p) => SingleTransactionKind::Publish(p.clone()),
            SingleTransactionKind::Call(c) => SingleTransactionKind::Call(c.clone()),
            SingleTransactionKind::TransferSui(t) => SingleTransactionKind::TransferSui(*t),
            SingleTransactionKind::Pay(p) => SingleTransactionKind::Pay(p.clone()),
            SingleTransactionKind::ChangeEpoch(e) => SingleTransactionKind::ChangeEpoch(*e),
        }
    }
}

/// What a transaction asks for: one thing, or several in one batch.
#[derive(Debug, PartialEq, Eq, Hash)]
pub enum TransactionKind {
    /// A single transaction.
    Single(SingleTransactionKind),
    /// A batch of single transactions.
    Batch(Vec<SingleTransactionKind>),
}

/// The mathematical form of a `TransactionKind`.
pub enum TransactionKindView {
    Single(SingleTransactionKindView),
    Batch(Seq<SingleTransactionKindView>),
}

impl View for TransactionKind {
    type V = TransactionKindView;

    open spec fn view(&self) -> TransactionKindView {
        match self {
            TransactionKind::Single(s) => TransactionKindView::Single(s@),
            TransactionKind::Batch(b) => TransactionKindView::Batch(views_of(b@)),
        }
    }
}

impl Clone for TransactionKind {
    fn clone(&self) -> (r: Self)
        ensures
            r@ == self@,
    {
        match self {
            TransactionKind::Single(s) => TransactionKind::Single(s.clone()),
            TransactionKind::Batch(b) => {
                let mut batch: Vec<SingleTransactionKind> = Vec::new();
                let mut i: usize = 0;
                while i < b.len()
                    invariant
                        i <= b.len(),
                        batch.len() == i,
                        forall|j: int| 0 <= j < i ==> batch@[j]@ == b@[j]@,
                    decreases b.len() - i,
                {
                    batch.push(b[i].clone());
                    i += 1;
                }
                assert(views_of(batch@) =~= views_of(b@));
                TransactionKind::Batch(batch)
            },
        }
    }
}

/// An object that a transaction takes as input, and how it is named.
#[derive(Clone, Copy, Debug, PartialEq, Eq)]
pub enum InputObjectKind {
    /// A Move package, must be immutable.
    MovePackage(ObjectID),
    /// A Move object, either immutable, or owned mutable.
    ImmOrOwnedMoveObject(ObjectRef),
    /// A Move object that is shared and mutable.
    SharedMoveObject(ObjectID),
}

impl InputObjectKind {
    /// The identifier of the object.
    pub open spec fn spec_object_id(&self) -> ObjectID {
        match self {
            InputObjectKind::MovePackage(id) => *id,
            InputObjectKind::ImmOrOwnedMoveObject(r) => r.0,
            InputObjectKind::SharedMoveObject(id) => *id,
        }
    }

    /// The identifier of the object.
    #[verifier::when_used_as_spec(spec_object_id)]
    pub fn object_id(&self) -> (r: ObjectID)
        ensures
            r == self.spec_object_id(),
    {
        match self {
            InputObjectKind::MovePackage(id) => *id,
            InputObjectKind::ImmOrOwnedMoveObject((id, _, _)) => *id,
            InputObjectKind::SharedMoveObject(id) => *id,
        }
    }

    /// The version at which the object is taken: the one that the reference names, and
    /// the start version for a package and for a shared object.
    pub fn version(&self) -> (r: SequenceNumber)
        ensures
            r == match *self {
                InputObjectKind::ImmOrOwnedMoveObject(o) => o.1,
                _ => spec_object_start_version(),
            },
    {
        match self {
            InputObjectKind::MovePackage(_) => object_start_version(),
            InputObjectKind::ImmOrOwnedMoveObject((_, version, _)) => *version,
            InputObjectKind::SharedMoveObject(_) => object_start_version(),
        }
    }

    /// The error to report where the object is not in the store.
    pub fn object_not_found_error(&self) -> (r: SuiError)
        ensures
            r == match *self {
                InputObjectKind::MovePackage(package_id) => SuiError::DependentPackageNotFound {
                    package_id,
                },
                InputObjectKind::ImmOrOwnedMoveObject(o) => SuiError::ObjectNotFound {
                    object_id: o.0,
                },
                InputObjectKind::SharedMoveObject(object_id) => SuiError::ObjectNotFound {
                    object_id,
                },
            },
    {
        match *self {
            InputObjectKind::MovePackage(package_id) => SuiError::DependentPackageNotFound {
                package_id,
            },
            InputObjectKind::ImmOrOwnedMoveObject((object_id, _, _)) => SuiError::ObjectNotFound {
                object_id,
            },
            InputObjectKind::SharedMoveObject(object_id) => SuiError::ObjectNotFound { object_id },
        }
    }
}

/// Whether no two entries of `s` name the same object.
pub open spec fn distinct_ids(s: Seq<InputObjectKind>) -> bool {
    forall|i: int, j: int|
        0 <= i < j < s.len() ==> (#[trigger] s[i]).object_id() != (#[trigger] s[j]).object_id()
}

/// Whether two entries of `v` name the same object.
pub fn has_duplicate_ids(v: &Vec<InputObjectKind>) -> (r: bool)
    ensures
        r == !distinct_ids(v@),
{
    let mut j: usize = 0;
    while j < v.len()
        invariant
            j <= v.len(),
            distinct_ids(v@.take(j as int)),
        decreases v.len() - j,
    {
        let id = v[j].object_id();
        let mut i: usize = 0;
        while i < j
            invariant
                i <= j < v.len(),
                id == v@[j as int].object_id(),
                forall|k: int| 0 <= k < i ==> (#[trigger] v@[k]).object_id() != id,
            decreases j - i,
        {
            if v[i].object_id() == id {
                assert(v@[i as int].object_id() == v@[j as int].object_id());
                return true;
            }
            i += 1;
        }
        assert(distinct_ids(v@.take(j as int + 1))) by {
            let t = v@.take(j as int + 1);
            let t0 = v@.take(j as int);
            assert forall|a: int, b: int| 0 <= a < b < t.len()
                implies (#[trigger] t[a]).object_id() != (#[trigger] t[b]).object_id() by {
                if b < j {
                    assert(t0[a].object_id() != t0[b].object_id());
                }
            }
        }
        j += 1;
    }
    assert(v@.take(v.len() as int) =~= v@);
    false
}

/// The input that an object argument stands for.
pub open spec fn object_arg_input(o: ObjectArg) -> InputObjectKind {
    match o {
        ObjectArg::ImmOrOwnedObject(r) => InputObjectKind::ImmOrOwnedMoveObject(r),
        ObjectArg::SharedObject(id) => InputObjectKind::SharedMoveObject(id),
    }
}

/// The inputs that one argument of a call stands for: none for pure bytes, one for an
/// object, one for each object of a vector.
pub open spec fn call_arg_inputs(a: CallArgView) -> Seq<InputObjectKind> {
    match a {
        CallArgView::Pure(_) => Seq::empty(),
        CallArgView::Object(o) => seq![object_arg_input(o)],
        CallArgView::ObjVec(v) => Seq::new(v.len(), |i: int| object_arg_input(v[i])),
    }
}

/// The inputs that the arguments of a call stand for, in the arguments' order.
pub open spec fn call_args_inputs(args: Seq<CallArgView>) -> Seq<InputObjectKind>
    decreases args.len(),
{
    if args.len() == 0 {
        Seq::empty()
    } else {
        call_args_inputs(args.drop_last()) + call_arg_inputs(args.last())
    }
}

/// The byte strings that identify the objects of `s`.
pub open spec fn input_keys(s: Seq<InputObjectKind>) -> Seq<Seq<u8>> {
    Seq::new(s.len(), |i: int| s[i].object_id().0@)
}

/// Whether a module of `modules` has the name `id`.
pub open spec fn is_published(
    modules: Seq<CompiledModuleView>,
    id: (AccountAddress, Seq<u8>),
) -> bool {
    exists|k: int| 0 <= k < modules.len() && (#[trigger] modules[k]).self_id == id
}

/// Whether the handle `h` of the module `m` refers to a module outside `modules`.
pub open spec fn is_outside_handle(modules: Seq<CompiledModuleView>, m: int, h: int) -> bool {
    &&& 0 <= m < modules.len()
    &&& 0 <= h < modules[m].module_handles.len()
    &&& !is_published(modules, modules[m].module_handles[h])
}

/// Whether a handle of `modules` refers to a module outside `modules` at the address
/// with the bytes `a`.
pub open spec fn is_dependency(modules: Seq<CompiledModuleView>, a: Seq<u8>) -> bool {
    exists|m: int, h: int| #[trigger]
        is_outside_handle(modules, m, h) && modules[m].module_handles[h].0.0@ == a
}

/// Whether `s` lists, each once and in increasing order, the packages that `modules`
/// depend on.
pub open spec fn is_package_list(
    modules: Seq<CompiledModuleView>,
    s: Seq<InputObjectKind>,
) -> bool {
    &&& forall|i: int| 0 <= i < s.len() ==> #[trigger] s[i] is MovePackage
    &&& strictly_sorted(input_keys(s))
    &&& forall|a: Seq<u8>| is_dependency(modules, a) <==> input_keys(s).contains(a)
}

/// The packages that `modules` depend on: one entry for each address at which a handle
/// refers to a module that is not among `modules`, in increasing order.
pub open spec fn dependent_packages(modules: Seq<CompiledModuleView>) -> Seq<InputObjectKind> {
    choose|s: Seq<InputObjectKind>| is_package_list(modules, s)
}

/// At most one sequence lists the packages that `modules` depend on.
pub proof fn lemma_package_list_unique(
    modules: Seq<CompiledModuleView>,
    s1: Seq<InputObjectKind>,
    s2: Seq<InputObjectKind>,
)
    requires
        is_package_list(modules, s1),
        is_package_list(modules, s2),
    ensures
        s1 == s2,
{
    assert forall|k: Seq<u8>| input_keys(s1).contains(k) <==> input_keys(s2).contains(k) by {
        assert(is_dependency(modules, k) <==> input_keys(s1).contains(k));
        assert(is_dependency(modules, k) <==> input_keys(s2).contains(k));
    }
    lemma_sorted_unique(input_keys(s1), input_keys(s2));
    assert(s1.len() == input_keys(s1).len());
    assert(s2.len() == input_keys(s2).len());
    assert forall|i: int| 0 <= i < s1.len() implies s1[i] == s2[i] by {
        assert(input_keys(s1)[i] == input_keys(s2)[i]);
        assert(s1[i] is MovePackage && s2[i] is MovePackage);
        assert(s1[i].object_id().0 =~= s2[i].object_id().0);
    }
    assert(s1 =~= s2);
}

/// Whether a handle of `modules` before the handle `h` of the module `m` refers to a
/// module outside `modules` at the address with the bytes `a`.
spec fn is_dependency_before(modules: Seq<CompiledModuleView>, m: int, h: int, a: Seq<u8>) -> bool {
    exists|m1: int, h1: int| #[trigger]
        is_outside_handle(modules, m1, h1) && (m1 < m || (m1 == m && h1 < h))
            && modules[m1].module_handles[h1].0.0@ == a
}

/// Whether a module of `modules` has the name `id`.
fn published(modules: &Vec<CompiledModule>, id: &ModuleId) -> (r: bool)
    ensures
        r == is_published(views_of(modules@), id@),
{
    let mut k: usize = 0;
    while k < modules.len()
        invariant
            k <= modules.len(),
            forall|j: int| 0 <= j < k ==> (#[trigger] views_of(modules@)[j]).self_id != id@,
        decreases modules.len() - k,
    {
        if modules[k].self_id.same(id) {
            assert(views_of(modules@)[k as int].self_id == id@);
            return true;
        }
        k += 1;
    }
    false
}

/// The packages that the compiled modules of a package depend on. Their digests play no
/// part: packages are read-only and never change.
pub fn input_objects_in_compiled_modules(
    compiled_modules: &Vec<CompiledModule>,
) -> (r: Vec<InputObjectKind>)
    ensures
        r@ == dependent_packages(views_of(compiled_modules@)),
        is_package_list(views_of(compiled_modules@), r@),
{
    let ghost modules = views_of(compiled_modules@);
    let mut packages: Vec<(ObjectID, ())> = Vec::new();
    let mut m: usize = 0;
    while m < compiled_modules.len()
        invariant
            m <= compiled_modules.len(),
            modules == views_of(compiled_modules@),
            sorted_by_key(packages@),
            forall|a: Seq<u8>|
                has_key(packages@, a) <==> is_dependency_before(modules, m as int, 0, a),
        decreases compiled_modules.len() - m,
    {
        let module = &compiled_modules[m];
        let mut h: usize = 0;
        while h < module.module_handles.len()
            invariant
                m < compiled_modules.len(),
                *module == compiled_modules@[m as int],
                h <= module.module_handles.len(),
                modules == views_of(compiled_modules@),
                sorted_by_key(packages@),
                forall|a: Seq<u8>|
                    has_key(packages@, a) <==> is_dependency_before(modules, m as int, h as int, a),
            decreases module.module_handles.len() - h,
        {
            let handle = &module.module_handles[h];
            assert(modules[m as int].module_handles[h as int] == handle@);
            let ghost before = packages@;
            let outside = !published(compiled_modules, handle);
            if outside {
                let id = ObjectID::from_address(handle.address);
                insert_sorted(&mut packages, id, ());
            }
            proof {
                assert forall|a: Seq<u8>| has_key(packages@, a) <==> is_dependency_before(
                    modules,
                    m as int,
                    h as int + 1,
                    a,
                ) by {
                    if is_dependency_before(modules, m as int, h as int + 1, a) {
                        let (m1, h1) = choose|m1: int, h1: int| #[trigger]
                            is_outside_handle(modules, m1, h1) && (m1 < m || (m1 == m && h1 < h
                                + 1)) && modules[m1].module_handles[h1].0.0@ == a;
                        if m1 == m && h1 == h {
                            assert(outside);
                        } else {
                            assert(is_outside_handle(modules, m1, h1) && (m1 < m || (m1 == m && h1
                                < h)) && modules[m1].module_handles[h1].0.0@ == a);
                            assert(is_dependency_before(modules, m as int, h as int, a));
                        }
                    }
                    if has_key(packages@, a) {
                        if has_key(before, a) {
                            let (m1, h1) = choose|m1: int, h1: int| #[trigger]
                                is_outside_handle(modules, m1, h1) && (m1 < m || (m1 == m && h1
                                    < h)) && modules[m1].module_handles[h1].0.0@ == a;
                            assert(is_outside_handle(modules, m1, h1) && (m1 < m || (m1 == m && h1
                                < h + 1)) && modules[m1].module_handles[h1].0.0@ == a);
                        } else {
                            assert(is_outside_handle(modules, m as int, h as int)
                                && (m < m || (m == m && h < h + 1))
                                    && modules[m as int].module_handles[h as int].0.0@
                                == a);
                        }
                    }
                }
            }
            h += 1;
        }
        proof {
            assert forall|a: Seq<u8>| has_key(packages@, a) <==> is_dependency_before(
                modules,
                m as int + 1,
                0,
                a,
            ) by {
                if is_dependency_before(modules, m as int + 1, 0, a) {
                    let (m1, h1) = choose|m1: int, h1: int| #[trigger]
                        is_outside_handle(modules, m1, h1) && (m1 < m + 1 || (m1 == m + 1 && h1
                            < 0)) && modules[m1].module_handles[h1].0.0@ == a;
                    assert(is_outside_handle(modules, m1, h1) && (m1 < m || (m1 == m && h1 < h))
                        && modules[m1].module_handles[h1].0.0@ == a);
                }
                if is_dependency_before(modules, m as int, h as int, a) {
                    let (m1, h1) = choose|m1: int, h1: int| #[trigger]
                        is_outside_handle(modules, m1, h1) && (m1 < m || (m1 == m && h1 < h))
                            && modules[m1].module_handles[h1].0.0@ == a;
                    assert(is_outside_handle(modules, m1, h1) && (m1 < m + 1 || (m1 == m + 1 && h1
                        < 0)) && modules[m1].module_handles[h1].0.0@ == a);
                }
            }
        }
        m += 1;
    }
    let mut r: Vec<InputObjectKind> = Vec::new();
    let mut i: usize = 0;
    while i < packages.len()
        invariant
            i <= packages.len(),
            r.len() == i,
            forall|j: int| 0 <= j < i ==>
                #[trigger] r@[j] == InputObjectKind::MovePackage(packages@[j].0),
        decreases packages.len() - i,
    {
        r.push(InputObjectKind::MovePackage(packages[i].0));
        i += 1;
    }
    proof {
        let keys = input_keys(r@);
        assert forall|x: int, y: int| 0 <= x < y < keys.len() implies lex_lt(
            #[trigger] keys[x],
            #[trigger] keys[y],
        ) by {
            assert(r@[x] == InputObjectKind::MovePackage(packages@[x].0));
            assert(r@[y] == InputObjectKind::MovePackage(packages@[y].0));
            assert(lex_lt(packages@[x].0.key(), packages@[y].0.key()));
        }
        assert forall|a: Seq<u8>| is_dependency(modules, a) <==> keys.contains(a) by {
            if is_dependency(modules, a) {
                let (m1, h1) = choose|m1: int, h1: int| #[trigger]
                    is_outside_handle(modules, m1, h1) && modules[m1].module_handles[h1].0.0@ == a;
                assert(is_outside_handle(modules, m1, h1) && (m1 < m || (m1 == m && h1 < 0))
                    && modules[m1].module_handles[h1].0.0@ == a);
                assert(has_key(packages@, a));
                let j = choose|j: int| 0 <= j < packages@.len()
                    && #[trigger] packages@[j].0.key() == a;
                assert(r@[j] == InputObjectKind::MovePackage(packages@[j].0));
                assert(keys[j] == a);
            }
            if keys.contains(a) {
                let j = choose|j: int| 0 <= j < keys.len() && keys[j] == a;
                assert(r@[j] == InputObjectKind::MovePackage(packages@[j].0));
                assert(packages@[j].0.key() == a);
                assert(has_key(packages@, a));
            }
        }
        assert(is_package_list(modules, r@));
        lemma_package_list_unique(modules, r@, dependent_packages(modules));
    }
    r
}

/// The inputs that a single transaction names, in their order, before any check.
pub open spec fn collected_inputs(k: SingleTransactionKindView) -> Seq<InputObjectKind> {
    match k {
        SingleTransactionKindView::TransferObject(t) => seq![
            InputObjectKind::ImmOrOwnedMoveObject(t.object_ref),
        ],
        SingleTransactionKindView::Call(c) => call_args_inputs(c.arguments).push(
            InputObjectKind::MovePackage(c.package.0),
        ),
        SingleTransactionKindView::Publish(p) => dependent_packages(p.compiled),
        SingleTransactionKindView::TransferSui(_) => Seq::empty(),
        SingleTransactionKindView::Pay(p) => Seq::new(
            p.coins.len(),
            |i: int| InputObjectKind::ImmOrOwnedMoveObject(p.coins[i]),
        ),
        SingleTransactionKindView::ChangeEpoch(_) => seq![
            InputObjectKind::SharedMoveObject(spec_system_state_object_id()),
        ],
    }
}

/// The ids of the shared objects among the inputs `s`, in their order.
pub open spec fn shared_among(s: Seq<InputObjectKind>) -> Seq<ObjectID>
    decreases s.len(),
{
    if s.len() == 0 {
        Seq::empty()
    } else {
        match s.last() {
            InputObjectKind::SharedMoveObject(id) => shared_among(s.drop_last()).push(id),
            _ => shared_among(s.drop_last()),
        }
    }
}

/// The shared objects among the inputs of a single transaction, in the order of the
/// inputs: the shared objects that a call takes as arguments, and the state of the
/// system for a change of epoch.
pub open spec fn shared_inputs(k: SingleTransactionKindView) -> Seq<ObjectID> {
    shared_among(collected_inputs(k))
}

/// The ids of the shared objects among `inputs`, in their order.
pub fn shared_ids(inputs: &Vec<InputObjectKind>) -> (r: Vec<ObjectID>)
    ensures
        r@ == shared_among(inputs@),
{
    let mut out: Vec<ObjectID> = Vec::new();
    let mut i: usize = 0;
    while i < inputs.len()
        invariant
            i <= inputs.len(),
            out@ == shared_among(inputs@.take(i as int)),
        decreases inputs.len() - i,
    {
        assert(inputs@.take(i as int + 1).drop_last() =~= inputs@.take(i as int));
        assert(inputs@.take(i as int + 1).last() == inputs@[i as int]);
        if let InputObjectKind::SharedMoveObject(id) = &inputs[i] {
            out.push(*id);
        }
        i += 1;
    }
    assert(inputs@.take(inputs.len() as int) =~= inputs@);
    out
}

impl SingleTransactionKind {
    /// Whether a shared object is among the inputs of the transaction.
    pub fn contains_shared_object(&self) -> (r: bool)
        ensures
            r == (shared_inputs(self@).len() > 0),
    {
        self.shared_input_objects().len() > 0
    }

    /// The shared objects among the inputs of the transaction, in the order of the
    /// inputs.
    pub fn shared_input_objects(&self) -> (r: Vec<ObjectID>)
        ensures
            r@ == shared_inputs(self@),
    {
        let inputs = self.collect_inputs();
        shared_ids(&inputs)
    }

    /// The call that the transaction makes, where it makes one.
    pub fn move_call(&self) -> (r: Option<&MoveCall>)
        ensures
            r == match self {
                SingleTransactionKind::Call(call) => Some(call),
                _ => None,
            },
    {
        match self {
            SingleTransactionKind::Call(call) => Some(call),
            _ => None,
        }
    }

    /// The inputs of the transaction, before the check for duplicates.
    pub(crate) fn collect_inputs(&self) -> (r: Vec<InputObjectKind>)
        ensures
            r@ == collected_inputs(self@),
    {
        match self {
            SingleTransactionKind::TransferObject(t) => {
                let r = vec![InputObjectKind::ImmOrOwnedMoveObject(t.object_ref)];
                assert(r@ =~= collected_inputs(self@));
                r
            },
            SingleTransactionKind::Call(call) => {
                let args = &call.arguments;
                let ghost views = views_of(args@);
                let mut out: Vec<InputObjectKind> = Vec::new();
                let mut i: usize = 0;
                while i < args.len()
                    invariant
                        i <= args.len(),
                        views == views_of(args@),
                        out@ == call_args_inputs(views.take(i as int)),
                    decreases args.len() - i,
                {
                    assert(views.take(i as int + 1).drop_last() =~= views.take(i as int));
                    assert(views.take(i as int + 1).last() == args@[i as int]@);
                    let ghost before = out@;
                    match &args[i] {
                        CallArg::Pure(_) => {},
                        CallArg::Object(ObjectArg::ImmOrOwnedObject(object_ref)) => {
                            out.push(InputObjectKind::ImmOrOwnedMoveObject(*object_ref));
                        },
                        CallArg::Object(ObjectArg::SharedObject(id)) => {
                            out.push(InputObjectKind::SharedMoveObject(*id));
                        },
                        CallArg::ObjVec(vec) => {
                            let mut j: usize = 0;
                            while j < vec.len()
                                invariant
                                    j <= vec.len(),
                                    out@ == before + call_arg_inputs(
                                        CallArgView::ObjVec(vec@),
                                    ).take(j as int),
                                decreases vec.len() - j,
                            {
                                let input = match &vec[j] {
                                    ObjectArg::ImmOrOwnedObject(object_ref) => {
                                        InputObjectKind::ImmOrOwnedMoveObject(*object_ref)
                                    },
                                    ObjectArg::SharedObject(id) => {
                                        InputObjectKind::SharedMoveObject(*id)
                                    },
                                };
                                out.push(input);
                                assert(out@ =~= before + call_arg_inputs(
                                    CallArgView::ObjVec(vec@),
                                ).take(j as int + 1));
                                j += 1;
                            }
                            assert(call_arg_inputs(CallArgView::ObjVec(vec@)).take(
                                vec.len() as int,
                            ) =~= call_arg_inputs(CallArgView::ObjVec(vec@)));
                        },
                    }
                    assert(out@ =~= before + call_arg_inputs(args@[i as int]@));
                    i += 1;
                }
                assert(views.take(args.len() as int) =~= views);
                out.push(InputObjectKind::MovePackage(call.package.0));
                out
            },
            SingleTransactionKind::Publish(publish) => {
                // All the dependent packages are implicit input objects: they must all be
                // on-chain for the package to publish, and all authorities must see the
                // same ones. A malformed module is left to execution to reject.
                input_objects_in_compiled_modules(&publish.compiled)
            },
            SingleTransactionKind::TransferSui(_) => {
                let r: Vec<InputObjectKind> = Vec::new();
                assert(r@ =~= collected_inputs(self@));
                r
            },
            SingleTransactionKind::Pay(pay) => {
                let mut out: Vec<InputObjectKind> = Vec::new();
                let mut i: usize = 0;
                while i < pay.coins.len()
                    invariant
                        i <= pay.coins.len(),
                        out.len() == i,
                        forall|j: int|
                            0 <= j < i ==>
                                #[trigger] out@[j]
                                == InputObjectKind::ImmOrOwnedMoveObject(pay.coins@[j]),
                    decreases pay.coins.len() - i,
                {
                    out.push(InputObjectKind::ImmOrOwnedMoveObject(pay.coins[i]));
                    i += 1;
                }
                assert(out@ =~= collected_inputs(self@));
                out
            },
            SingleTransactionKind::ChangeEpoch(_) => {
                let r = vec![InputObjectKind::SharedMoveObject(sui_system_state_object_id())];
                assert(r@ =~= collected_inputs(self@));
                r
            },
        }
    }

    /// The inputs of the transaction: an object by its reference, a package by its
    /// identifier alone, since packages never change. Refuses a transaction that names
    /// one object twice.
    pub fn input_objects(&self) -> (r: SuiResult<Vec<InputObjectKind>>)
        ensures
            match r {
                Ok(v) => v@ == collected_inputs(self@) && distinct_ids(v@),
                Err(e) => e == SuiError::DuplicateObjectRefInput && !distinct_ids(
                    collected_inputs(self@),
                ),
            },
    {
        let input_objects = self.collect_inputs();
        if has_duplicate_ids(&input_objects) {
            return Err(SuiError::DuplicateObjectRefInput);
        }
        Ok(input_objects)
    }
}

} // verus!
