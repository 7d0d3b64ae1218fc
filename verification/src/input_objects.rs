//! The objects that a transaction takes as inputs, as they are read from the store.

use crate::base_types::{ObjectID, ObjectRef, TransactionDigest};
use crate::lex::{has_key, insert_sorted, sorted_by_key, ByteKey};
use crate::object::{input_kind_of, object_reference, Object, ObjectView};
use crate::transaction::InputObjectKind;
use vstd::prelude::*;
use vstd::std_specs::convert::FromSpecImpl;

verus! {

/// The inputs of a transaction, each with the object that it names.
#[derive(Debug)]
pub struct InputObjects {
    objects: Vec<(InputObjectKind, Object)>,
}

/// The references of those inputs that are named by reference and can change.
pub open spec fn owned_refs(s: Seq<(InputObjectKind, ObjectView)>) -> Seq<ObjectRef>
    decreases s.len(),
{
    if s.len() == 0 {
        Seq::empty()
    } else {
        match s.last().0 {
            InputObjectKind::ImmOrOwnedMoveObject(r) => if s.last().1.owner is Immutable {
                owned_refs(s.drop_last())
            } else {
                owned_refs(s.drop_last()).push(r)
            },
            _ => owned_refs(s.drop_last()),
        }
    }
}

/// The references, as computed from the objects, of those inputs that are shared.
pub open spec fn shared_refs(s: Seq<(InputObjectKind, ObjectView)>) -> Seq<ObjectRef>
    decreases s.len(),
{
    if s.len() == 0 {
        Seq::empty()
    } else {
        match s.last().0 {
            InputObjectKind::SharedMoveObject(_) => shared_refs(s.drop_last()).push(
                object_reference(s.last().1),
            ),
            _ => shared_refs(s.drop_last()),
        }
    }
}

/// The references of those inputs that the transaction can change: the owned ones that
/// are not immutable, and the shared ones.
pub open spec fn mutable_refs(s: Seq<(InputObjectKind, ObjectView)>) -> Seq<ObjectRef>
    decreases s.len(),
{
    if s.len() == 0 {
        Seq::empty()
    } else {
        match s.last().0 {
            InputObjectKind::MovePackage(_) => mutable_refs(s.drop_last()),
            InputObjectKind::ImmOrOwnedMoveObject(r) => if s.last().1.owner is Immutable {
                mutable_refs(s.drop_last())
            } else {
                mutable_refs(s.drop_last()).push(r)
            },
            InputObjectKind::SharedMoveObject(_) => mutable_refs(s.drop_last()).push(
                object_reference(s.last().1),
            ),
        }
    }
}

/// Whether an object of `s` was last written by the transaction with the digest `d`.
pub open spec fn is_previous_transaction(
    s: Seq<(InputObjectKind, ObjectView)>,
    d: Seq<u8>,
) -> bool {
    exists|i: int| 0 <= i < s.len() && (#[trigger] s[i]).1.previous_transaction.0@ == d
}

/// Whether `i` is the last position of `s` at which the object has the identifier `id`.
pub open spec fn is_last_with_id(
    s: Seq<(InputObjectKind, ObjectView)>,
    i: int,
    id: ObjectID,
) -> bool {
    &&& 0 <= i < s.len()
    &&& s[i].1.id == id
    &&& forall|k: int| i < k < s.len() ==> (#[trigger] s[k]).1.id != id
}

/// Whether the object with the form `view` is the last of `s` with the identifier `id`.
pub open spec fn stands_for(
    s: Seq<(InputObjectKind, ObjectView)>,
    id: ObjectID,
    view: ObjectView,
) -> bool {
    exists|i: int| #[trigger] is_last_with_id(s, i, id) && s[i].1 == view
}

impl InputObjects {
    /// The inputs with their objects, in their order.
    pub closed spec fn entries(&self) -> Seq<(InputObjectKind, ObjectView)> {
        Seq::new(self.objects@.len(), |i: int| (self.objects@[i].0, self.objects@[i].1@))
    }

    /// The inputs `objects`.
    pub fn new(objects: Vec<(InputObjectKind, Object)>) -> (r: Self)
        ensures
            r.entries() == Seq::new(objects@.len(), |i: int| (objects@[i].0, objects@[i].1@)),
    {
        InputObjects { objects }
    }

    /// The objects `objects`, each as the input that it is by its nature.
    pub fn from_objects(objects: Vec<Object>) -> (r: Self)
        ensures
            r.entries() == Seq::new(
                objects@.len(),
                |i: int| (input_kind_of(objects@[i]@), objects@[i]@),
            ),
    {
        let ghost views = Seq::new(objects@.len(), |i: int| objects@[i]@);
        let mut objects = objects;
        let mut out: Vec<(InputObjectKind, Object)> = Vec::new();
        while objects.len() > 0
            invariant
                out@.len() + objects@.len() == views.len(),
                forall|j: int|
                    0 <= j < out@.len() ==> (#[trigger] out@[j]).1@ == views[views.len() - 1 - j]
                        && out@[j].0 == input_kind_of(out@[j].1@),
                forall|j: int| 0 <= j < objects@.len() ==> (#[trigger] objects@[j])@ == views[j],
            decreases objects.len(),
        {
            let o = objects.pop().unwrap();
            let kind = o.input_object_kind();
            out.push((kind, o));
        }
        let mut ordered: Vec<(InputObjectKind, Object)> = Vec::new();
        while out.len() > 0
            invariant
                out@.len() + ordered@.len() == views.len(),
                forall|j: int|
                    0 <= j < out@.len() ==> (#[trigger] out@[j]).1@ == views[views.len() - 1 - j]
                        && out@[j].0 == input_kind_of(out@[j].1@),
                forall|j: int|
                    0 <= j < ordered@.len() ==> (#[trigger] ordered@[j]).1@ == views[j]
                        && ordered@[j].0 == input_kind_of(ordered@[j].1@),
            decreases out.len(),
        {
            let entry = out.pop().unwrap();
            ordered.push(entry);
        }
        let r = InputObjects { objects: ordered };
        assert(r.entries() =~= Seq::new(views.len(), |i: int| (input_kind_of(views[i]), views[i])));
        r
    }

    /// The number of inputs.
    pub fn len(&self) -> (r: usize)
        ensures
            r == self.entries().len(),
    {
        self.objects.len()
    }

    /// Whether there is no input.
    pub fn is_empty(&self) -> (r: bool)
        ensures
            r == (self.entries().len() == 0),
    {
        self.objects.len() == 0
    }

    /// The references of those inputs that are named by reference and can change: the
    /// objects whose locks must be checked.
    pub fn filter_owned_objects(&self) -> (r: Vec<ObjectRef>)
        ensures
            r@ == owned_refs(self.entries()),
    {
        let ghost s = self.entries();
        let mut owned_objects: Vec<ObjectRef> = Vec::new();
        let mut i: usize = 0;
        while i < self.objects.len()
            invariant
                i <= self.objects.len(),
                s == self.entries(),
                owned_objects@ == owned_refs(s.take(i as int)),
            decreases self.objects.len() - i,
        {
            assert(s.take(i as int + 1).drop_last() =~= s.take(i as int));
            let (object_kind, object) = &self.objects[i];
            match object_kind {
                InputObjectKind::MovePackage(_) => {},
                InputObjectKind::ImmOrOwnedMoveObject(object_ref) => {
                    if !object.is_immutable() {
                        owned_objects.push(*object_ref);
                    }
                },
                InputObjectKind::SharedMoveObject(_) => {},
            }
            i += 1;
        }
        assert(s.take(s.len() as int) =~= s);
        owned_objects
    }

    /// The references, as computed from the objects, of those inputs that are shared.
    pub fn filter_shared_objects(&self) -> (r: Vec<ObjectRef>)
        ensures
            r@ == shared_refs(self.entries()),
    {
        let ghost s = self.entries();
        let mut out: Vec<ObjectRef> = Vec::new();
        let mut i: usize = 0;
        while i < self.objects.len()
            invariant
                i <= self.objects.len(),
                s == self.entries(),
                out@ == shared_refs(s.take(i as int)),
            decreases self.objects.len() - i,
        {
            assert(s.take(i as int + 1).drop_last() =~= s.take(i as int));
            let (kind, object) = &self.objects[i];
            if let InputObjectKind::SharedMoveObject(_) = kind {
                out.push(object.compute_object_reference());
            }
            i += 1;
        }
        assert(s.take(s.len() as int) =~= s);
        out
    }

    /// The digests of the transactions that last wrote the inputs, each once, in
    /// increasing order.
    pub fn transaction_dependencies(&self) -> (r: Vec<TransactionDigest>)
        ensures
            forall|i: int, j: int|
                0 <= i < j < r@.len() ==> crate::lex::lex_lt(
                    (#[trigger] r@[i]).0@,
                    (#[trigger] r@[j]).0@,
                ),
            forall|d: TransactionDigest|
                r@.contains(d) <==> is_previous_transaction(self.entries(), d.0@),
    {
        let ghost s = self.entries();
        let mut set: Vec<(TransactionDigest, ())> = Vec::new();
        let mut i: usize = 0;
        while i < self.objects.len()
            invariant
                i <= self.objects.len(),
                s == self.entries(),
                sorted_by_key(set@),
                forall|d: Seq<u8>| has_key(set@, d) <==> is_previous_transaction(s.take(i as int),
                    d),
            decreases self.objects.len() - i,
        {
            let ghost before = set@;
            let digest = self.objects[i].1.previous_transaction;
            insert_sorted(&mut set, digest, ());
            proof {
                let t0 = s.take(i as int);
                let t1 = s.take(i as int + 1);
                assert forall|d: Seq<u8>| has_key(set@, d) <==> is_previous_transaction(t1, d) by {
                    if is_previous_transaction(t1, d) {
                        let k = choose|k: int|
                            0 <= k < t1.len() && (#[trigger] t1[k]).1.previous_transaction.0@ == d;
                        if k < i {
                            assert(t0[k].1.previous_transaction.0@ == d);
                        }
                    }
                    if has_key(before, d) {
                        let k = choose|k: int|
                            0 <= k < t0.len() && (#[trigger] t0[k]).1.previous_transaction.0@ == d;
                        assert(t1[k].1.previous_transaction.0@ == d);
                    }
                    if d == digest.0@ {
                        assert(t1[i as int].1.previous_transaction.0@ == d);
                    }
                }
            }
            i += 1;
        }
        assert(s.take(s.len() as int) =~= s);
        let mut r: Vec<TransactionDigest> = Vec::new();
        let mut k: usize = 0;
        while k < set.len()
            invariant
                k <= set.len(),
                r.len() == k,
                forall|j: int| 0 <= j < k ==> #[trigger] r@[j] == set@[j].0,
            decreases set.len() - k,
        {
            r.push(set[k].0);
            k += 1;
        }
        proof {
            assert forall|a: int, b: int| 0 <= a < b < r@.len() implies crate::lex::lex_lt(
                (#[trigger] r@[a]).0@,
                (#[trigger] r@[b]).0@,
            ) by {
                assert(r@[a] == set@[a].0 && r@[b] == set@[b].0);
                assert(crate::lex::lex_lt(set@[a].0.key(), set@[b].0.key()));
            }
            assert forall|d: TransactionDigest| r@.contains(d) <==> is_previous_transaction(
                s,
                d.0@,
            ) by {
                if r@.contains(d) {
                    let j = choose|j: int| 0 <= j < r@.len() && r@[j] == d;
                    assert(r@[j] == set@[j].0);
                    assert(set@[j].0.key() == d.0@);
                    assert(has_key(set@, d.0@));
                }
                if is_previous_transaction(s, d.0@) {
                    assert(has_key(set@, d.0@));
                    let j = choose|j: int| 0 <= j < set@.len()
                        && (#[trigger] set@[j]).0.key() == d.0@;
                    assert(r@[j] == set@[j].0);
                    assert(r@[j].0 =~= d.0);
                }
            }
        }
        r
    }

    /// The objects by their identifiers, in increasing order of the identifiers. Where
    /// several inputs have one identifier, the last of them stands for it.
    pub fn into_object_map(self) -> (r: Vec<(ObjectID, Object)>)
        ensures
            sorted_by_key(r@),
            forall|j: int|
                0 <= j < r@.len() ==> stands_for(self.entries(), (#[trigger] r@[j]).0, r@[j].1@),
            forall|i: int|
                0 <= i < self.entries().len() ==> has_key(
                    r@,
                    (#[trigger] self.entries()[i]).1.id.0@,
                ),
    {
        let ghost s = self.entries();
        let mut objects = self.objects;
        let mut map: Vec<(ObjectID, Object)> = Vec::new();
        while objects.len() > 0
            invariant
                objects@.len() <= s.len(),
                forall|i: int| 0 <= i < objects@.len() ==> (#[trigger] objects@[i]).1@ == s[i].1,
                sorted_by_key(map@),
                forall|j: int| 0 <= j < map@.len() ==>
                    stands_for(s, (#[trigger] map@[j]).0, map@[j].1@),
                forall|i: int|
                    objects@.len() <= i < s.len() ==> has_key(map@, (#[trigger] s[i]).1.id.0@),
            decreases objects.len(),
        {
            let ghost n = objects@.len() - 1;
            let ghost before = map@;
            let (_, object) = objects.pop().unwrap();
            let id = object.id();
            let ghost obj = object;
            let fresh = insert_sorted(&mut map, id, object);
            proof {
                assert(s[n].1 == obj@);
                if fresh {
                    let pos = choose|pos: int|
                        0 <= pos <= before.len() && map@ == before.insert(pos, (id, obj));
                    assert(is_last_with_id(s, n, id)) by {
                        assert forall|k: int| n < k < s.len()
                            implies (#[trigger] s[k]).1.id != id by {
                            assert(has_key(before, s[k].1.id.0@));
                        }
                    }
                    assert forall|j: int| 0 <= j < map@.len() implies stands_for(
                        s,
                        (#[trigger] map@[j]).0,
                        map@[j].1@,
                    ) by {
                        if j < pos {
                            assert(map@[j] == before[j]);
                        } else if j > pos {
                            assert(map@[j] == before[j - 1]);
                        }
                    }
                }
            }
        }
        map
    }

    /// The references of those inputs that the transaction can change.
    pub fn mutable_inputs(&self) -> (r: Vec<ObjectRef>)
        ensures
            r@ == mutable_refs(self.entries()),
    {
        let ghost s = self.entries();
        let mut out: Vec<ObjectRef> = Vec::new();
        let mut i: usize = 0;
        while i < self.objects.len()
            invariant
                i <= self.objects.len(),
                s == self.entries(),
                out@ == mutable_refs(s.take(i as int)),
            decreases self.objects.len() - i,
        {
            assert(s.take(i as int + 1).drop_last() =~= s.take(i as int));
            let (kind, object) = &self.objects[i];
            match kind {
                InputObjectKind::MovePackage(_) => {},
                InputObjectKind::ImmOrOwnedMoveObject(object_ref) => {
                    if !object.is_immutable() {
                        out.push(*object_ref);
                    }
                },
                InputObjectKind::SharedMoveObject(_) => {
                    out.push(object.compute_object_reference());
                },
            }
            i += 1;
        }
        assert(s.take(s.len() as int) =~= s);
        out
    }
}

impl From<Vec<Object>> for InputObjects {
    /// The objects `objects`, each as the input that it is by its nature: what
    /// `from_objects` gives.
    fn from(objects: Vec<Object>) -> (r: Self) {
        InputObjects::from_objects(objects)
    }
}

impl FromSpecImpl<Vec<Object>> for InputObjects {
    open spec fn obeys_from_spec() -> bool {
        false
    }

    open spec fn from_spec(objects: Vec<Object>) -> Self {
        arbitrary()
    }
}

} // verus!
