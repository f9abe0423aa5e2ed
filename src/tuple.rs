use vstd::prelude::*;
use crate::runtime::{Runtime, PyValue, bump, value_ok};
use crate::object::{PyObjectRef, PyError};

verus! {

/// The object ids of a sequence of handles.
pub open spec fn ids_of(items: Seq<PyObjectRef>) -> Seq<usize> {
    items.map_values(|h: PyObjectRef| h.id() as usize)
}

/// Every handle refers to an object of `rt`.
pub open spec fn all_valid(rt: Runtime, items: Seq<PyObjectRef>) -> bool {
    forall|i: int| 0 <= i < items.len() ==> rt.valid(#[trigger] items[i].id())
}

/// Takes the ids out of the handles: each reference moves to the container that
/// will hold it.
fn take_ids(rt: &Runtime, items: Vec<PyObjectRef>) -> (r: Vec<usize>)
    requires
        rt.wf(),
        all_valid(*rt, items@),
    ensures
        r@ == ids_of(items@),
        value_ok(PyValue::Tuple(r), rt.objects@.len() as int),
        value_ok(PyValue::List(r), rt.objects@.len() as int),
{
    let mut ids: Vec<usize> = Vec::new();
    let mut i: usize = 0;
    while i < items.len()
        invariant
            i <= items@.len(),
            ids@ == ids_of(items@).take(i as int),
            all_valid(*rt, items@),
        decreases items@.len() - i,
    {
        proof {
            items@[i as int].lemma_id_range();
        }
        ids.push(items[i].as_ptr());
        assert(ids_of(items@).take(i + 1) =~= ids_of(items@).take(i as int).push(items@[i as int].id() as usize));
        i = i + 1;
    }
    assert(ids_of(items@).take(i as int) =~= ids_of(items@));
    assert forall|j: int| 0 <= j < ids@.len() implies ids@[j] < rt.objects@.len() by {
        assert(rt.valid(items@[j].id()));
    }
    ids
}

/// A new list holding `items`; each item's reference moves into the list.
pub fn new_list(rt: &mut Runtime, items: Vec<PyObjectRef>) -> (r: PyObjectRef)
    requires
        old(rt).wf(),
        all_valid(*old(rt), items@),
    ensures
        final(rt).wf(),
        r.id() == old(rt).objects@.len(),
        final(rt).objects@.len() == old(rt).objects@.len() + 1,
        final(rt).value(r.id()) is List,
        final(rt).value(r.id())->List_0@ == ids_of(items@),
        final(rt).counts() == old(rt).counts().push(1),
        final(rt).pending == old(rt).pending,
        Runtime::values_kept(*old(rt), *final(rt)),
{
    let ids = take_ids(rt, items);
    let id = rt.allocate(PyValue::List(ids));
    assert(rt.counts() =~= old(rt).counts().push(1));
    PyObjectRef::from_owned(id).unwrap()
}

/// A handle on a tuple object.
pub struct PyTuple {
    inner: PyObjectRef,
}

impl PyTuple {
    pub closed spec fn id(&self) -> int {
        self.inner.id()
    }

    /// The ids of the tuple's items in `rt`.
    pub open spec fn items_in(&self, rt: Runtime) -> Seq<usize> {
        rt.value(self.id())->Tuple_0@
    }

    /// A new tuple holding `items`; each item's reference moves into the tuple.
    pub fn new(rt: &mut Runtime, items: Vec<PyObjectRef>) -> (r: Result<PyTuple, PyError>)
        requires
            old(rt).wf(),
            all_valid(*old(rt), items@),
        ensures
            final(rt).wf(),
            r is Ok,
            r->Ok_0.id() == old(rt).objects@.len(),
            final(rt).objects@.len() == old(rt).objects@.len() + 1,
            final(rt).value(r->Ok_0.id()) is Tuple,
            r->Ok_0.items_in(*final(rt)) == ids_of(items@),
            final(rt).counts() == old(rt).counts().push(1),
            final(rt).pending == old(rt).pending,
            Runtime::values_kept(*old(rt), *final(rt)),
    {
        let ids = take_ids(rt, items);
        let id = rt.allocate(PyValue::Tuple(ids));
        assert(rt.counts() =~= old(rt).counts().push(1));
        Ok(PyTuple { inner: PyObjectRef::from_owned(id).unwrap() })
    }

    /// A new empty tuple.
    pub fn empty(rt: &mut Runtime) -> (r: Result<PyTuple, PyError>)
        requires
            old(rt).wf(),
        ensures
            final(rt).wf(),
            r is Ok,
            r->Ok_0.id() == old(rt).objects@.len(),
            final(rt).objects@.len() == old(rt).objects@.len() + 1,
            final(rt).value(r->Ok_0.id()) is Tuple,
            r->Ok_0.items_in(*final(rt)).len() == 0,
            final(rt).counts() == old(rt).counts().push(1),
            final(rt).pending == old(rt).pending,
            Runtime::values_kept(*old(rt), *final(rt)),
    {
        let items: Vec<PyObjectRef> = Vec::new();
        assert(ids_of(items@) =~= Seq::<usize>::empty());
        Self::new(rt, items)
    }

    /// The number of items.
    pub fn len(&self, rt: &Runtime) -> (r: usize)
        requires
            rt.wf(),
            rt.valid(self.id()),
            rt.value(self.id()) is Tuple,
        ensures
            r == self.items_in(*rt).len(),
    {
        match &rt.objects[self.inner.as_ptr()].value {
            PyValue::Tuple(items) => items.len(),
            _ => 0,
        }
    }

    /// Whether the tuple has no items.
    pub fn is_empty(&self, rt: &Runtime) -> (r: bool)
        requires
            rt.wf(),
            rt.valid(self.id()),
            rt.value(self.id()) is Tuple,
        ensures
            r == (self.items_in(*rt).len() == 0),
    {
        self.len(rt) == 0
    }

    /// Item `index` as a new reference; absent when out of range.
    pub fn get(&self, rt: &mut Runtime, index: usize) -> (r: Option<PyObjectRef>)
        requires
            old(rt).wf(),
            old(rt).valid(self.id()),
            old(rt).value(self.id()) is Tuple,
        ensures
            final(rt).wf(),
            final(rt).values() == old(rt).values(),
            final(rt).pending == old(rt).pending,
            ({
                let items = self.items_in(*old(rt));
                if index < items.len() && items[index as int] != 0 {
                    &&& r is Some
                    &&& r->0.id() == items[index as int]
                    &&& final(rt).counts() == bump(old(rt).counts(), r->0.id())
                } else {
                    &&& r is None
                    &&& *final(rt) == *old(rt)
                }
            }),
    {
        let item = match &rt.objects[self.inner.as_ptr()].value {
            PyValue::Tuple(items) => {
                if index < items.len() {
                    items[index]
                } else {
                    0
                }
            },
            _ => 0,
        };
        assert(value_ok(old(rt).value(self.id()), old(rt).objects@.len() as int));
        let r = PyObjectRef::from_borrowed(rt, item);
        assert(rt.values() =~= old(rt).values());
        if item != 0 {
            assert(rt.counts() =~= bump(old(rt).counts(), item as int));
        }
        r
    }

    /// The handle, as a plain object reference.
    pub fn into_object(self) -> (r: PyObjectRef)
        ensures
            r.id() == self.id(),
    {
        self.inner
    }

    /// The handle, borrowed as a plain object reference.
    pub fn as_object(&self) -> (r: &PyObjectRef)
        ensures
            r.id() == self.id(),
    {
        &self.inner
    }
}

} // verus!
