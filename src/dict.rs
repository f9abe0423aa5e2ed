use vstd::prelude::*;
use crate::runtime::{Runtime, PyValue, dict_view, dict_set, dict_get, bump, drop_one};
use crate::object::{PyObjectRef, PyError, cleared_counts};

verus! {

/// The counts after storing `v` in a dict slot that held `replaced`: the new value
/// gains a reference and the old one loses one.
pub open spec fn counts_after_store(c: Seq<u64>, v: int, replaced: Option<usize>) -> Seq<u64> {
    match replaced {
        Some(w) => drop_one(bump(c, v), w as int),
        None => bump(c, v),
    }
}

/// Only the dict `id` changed value among the old objects, and no object was added.
pub open spec fn only_dict_changed(a: Runtime, b: Runtime, id: int) -> bool {
    &&& b.objects@.len() == a.objects@.len()
    &&& b.is_dict(id)
    &&& forall|i: int| 0 <= i < a.objects@.len() && i != id ==> #[trigger] b.value(i) == a.value(i)
    &&& Runtime::same_state(a, b)
}

/// A handle on a dict object.
pub struct PyDict {
    inner: PyObjectRef,
}

impl PyDict {
    pub closed spec fn id(&self) -> int {
        self.inner.id()
    }

    /// The dict's entries in `rt`, as (key, value id) pairs in insertion order.
    pub open spec fn view_in(&self, rt: Runtime) -> Seq<(Seq<char>, usize)> {
        dict_view(rt.entries(self.id()))
    }

    /// A new empty dict.
    pub fn new(rt: &mut Runtime) -> (r: Result<PyDict, PyError>)
        requires
            old(rt).wf(),
        ensures
            final(rt).wf(),
            r is Ok,
            r->Ok_0.id() == old(rt).objects@.len(),
            final(rt).objects@.len() == old(rt).objects@.len() + 1,
            final(rt).is_dict(r->Ok_0.id()),
            r->Ok_0.view_in(*final(rt)).len() == 0,
            final(rt).refcnt(r->Ok_0.id()) == 1,
            final(rt).counts() == old(rt).counts().push(1),
            final(rt).pending == old(rt).pending,
            Runtime::values_kept(*old(rt), *final(rt)),
    {
        let id = rt.allocate(PyValue::Dict(Vec::new()));
        assert(rt.counts() =~= old(rt).counts().push(1));
        let d = PyDict { inner: PyObjectRef::from_owned(id).unwrap() };
        assert(d.view_in(*rt) =~= Seq::empty());
        Ok(d)
    }

    /// `d[key] = value` for a `str` key. The dict takes its own reference to
    /// `value`; the caller keeps theirs.
    pub fn set_item_str(&self, rt: &mut Runtime, key: &str, value: &PyObjectRef) -> (r: Result<(), PyError>)
        requires
            old(rt).wf(),
            old(rt).is_dict(self.id()),
            old(rt).valid(value.id()),
        ensures
            final(rt).wf(),
            r is Ok,
            only_dict_changed(*old(rt), *final(rt), self.id()),
            self.view_in(*final(rt)) == dict_set(self.view_in(*old(rt)), key@, value.id() as usize),
            dict_get(final(rt).entries(self.id()), key@) == Some(value.id() as usize),
            forall|other: Seq<char>| other != key@ ==> #[trigger] dict_get(final(rt).entries(self.id()), other)
                == dict_get(old(rt).entries(self.id()), other),
            final(rt).counts() == counts_after_store(
                old(rt).counts(),
                value.id(),
                dict_get(old(rt).entries(self.id()), key@),
            ),
    {
        let k = String::from_str(key);
        self.store(rt, k, value);
        Ok(())
    }

    /// `d[key] = value` for a key object, which must be a `str`.
    pub fn set_item(&self, rt: &mut Runtime, key: &PyObjectRef, value: &PyObjectRef) -> (r: Result<(), PyError>)
        requires
            old(rt).wf(),
            old(rt).is_dict(self.id()),
            old(rt).valid(key.id()),
            old(rt).valid(value.id()),
        ensures
            final(rt).wf(),
            r is Ok <==> old(rt).value(key.id()) is Str,
            r is Err ==> r->Err_0.kind@ == "TypeError"@ && *final(rt) == *old(rt),
            r is Ok ==> ({
                let k = old(rt).value(key.id())->Str_0@;
                &&& only_dict_changed(*old(rt), *final(rt), self.id())
                &&& self.view_in(*final(rt)) == dict_set(self.view_in(*old(rt)), k, value.id() as usize)
                &&& dict_get(final(rt).entries(self.id()), k) == Some(value.id() as usize)
                &&& forall|other: Seq<char>| other != k ==> #[trigger] dict_get(final(rt).entries(self.id()), other)
                    == dict_get(old(rt).entries(self.id()), other)
                &&& final(rt).counts() == counts_after_store(
                    old(rt).counts(),
                    value.id(),
                    dict_get(old(rt).entries(self.id()), k),
                )
            }),
    {
        let k = match &rt.objects[key.as_ptr()].value {
            PyValue::Str(s) => s.clone(),
            _ => {
                return Err(PyError::new("TypeError", "dict keys must be str"));
            },
        };
        self.store(rt, k, value);
        Ok(())
    }

    /// A dict handle over `ptr`, borrowing the caller's reference.
    pub(crate) fn wrap(ptr: usize) -> (r: PyDict)
        requires
            ptr != crate::runtime::NULL,
        ensures
            r.id() == ptr,
    {
        PyDict { inner: PyObjectRef::from_owned(ptr).unwrap() }
    }

    pub(crate) fn store_text(&self, rt: &mut Runtime, key: String, value: &PyObjectRef)
        requires
            old(rt).wf(),
            old(rt).is_dict(self.id()),
            old(rt).valid(value.id()),
        ensures
            final(rt).wf(),
            only_dict_changed(*old(rt), *final(rt), self.id()),
            self.view_in(*final(rt)) == dict_set(self.view_in(*old(rt)), key@, value.id() as usize),
            final(rt).counts() == counts_after_store(
                old(rt).counts(),
                value.id(),
                dict_get(old(rt).entries(self.id()), key@),
            ),
    {
        self.store(rt, key, value);
    }

    fn store(&self, rt: &mut Runtime, key: String, value: &PyObjectRef)
        requires
            old(rt).wf(),
            old(rt).is_dict(self.id()),
            old(rt).valid(value.id()),
        ensures
            final(rt).wf(),
            only_dict_changed(*old(rt), *final(rt), self.id()),
            self.view_in(*final(rt)) == dict_set(self.view_in(*old(rt)), key@, value.id() as usize),
            dict_get(final(rt).entries(self.id()), key@) == Some(value.id() as usize),
            forall|other: Seq<char>| other != key@ ==> #[trigger] dict_get(final(rt).entries(self.id()), other)
                == dict_get(old(rt).entries(self.id()), other),
            final(rt).counts() == counts_after_store(
                old(rt).counts(),
                value.id(),
                dict_get(old(rt).entries(self.id()), key@),
            ),
    {
        let v = value.as_ptr();
        let d = self.inner.as_ptr();
        proof {
            value.lemma_id_range();
            crate::runtime::lemma_dict_keys_distinct(*old(rt), self.id());
            assert forall|other: Seq<char>| true implies crate::runtime::view_get(
                dict_set(self.view_in(*old(rt)), key@, v),
                other,
            ) == if other == key@ {
                Some(v)
            } else {
                crate::runtime::view_get(self.view_in(*old(rt)), other)
            } by {
                crate::runtime::lemma_view_get_after_set(self.view_in(*old(rt)), key@, v, other);
            }
        }
        rt.incref(v);
        let ghost mid = *rt;
        assert(mid.counts() =~= bump(old(rt).counts(), v as int));
        let replaced = rt.dict_insert(d, key, v);
        match replaced {
            Some(w) => {
                let ghost before = *rt;
                rt.decref(w);
                assert(rt.counts() =~= drop_one(before.counts(), w as int));
            },
            None => {},
        }
    }

    /// `d[key]` for a `str` key: a new reference, or absent. Either way no
    /// exception is left pending.
    pub fn get_item_str(&self, rt: &mut Runtime, key: &str) -> (r: Option<PyObjectRef>)
        requires
            old(rt).wf(),
            old(rt).is_dict(self.id()),
        ensures
            final(rt).wf(),
            final(rt).pending is None,
            final(rt).values() == old(rt).values(),
            r == None::<PyObjectRef> <==> dict_get(old(rt).entries(self.id()), key@) is None,
            r is Some ==> r->0.id() == dict_get(old(rt).entries(self.id()), key@)->0
                && final(rt).counts() == bump(cleared_counts(*old(rt)), r->0.id()),
            r is None ==> final(rt).counts() == cleared_counts(*old(rt)),
    {
        PyError::clear(rt);
        let ghost cleared = *rt;
        assert(rt.value(self.id()) == old(rt).value(self.id()));
        match self.inner.get_item_str(rt, key) {
            Ok(item) => {
                assert(rt.counts() =~= bump(cleared.counts(), item.id()));
                assert(rt.values() =~= cleared.values());
                Some(item)
            },
            Err(_) => None,
        }
    }

    /// `d[key]` for a key object: a new reference, or a `KeyError` when no entry
    /// has that key. No exception is left pending.
    pub fn get_item(&self, rt: &mut Runtime, key: &PyObjectRef) -> (r: Result<PyObjectRef, PyError>)
        requires
            old(rt).wf(),
            old(rt).is_dict(self.id()),
            old(rt).valid(key.id()),
        ensures
            final(rt).wf(),
            final(rt).pending is None,
            final(rt).values() == old(rt).values(),
            ({
                let found = if old(rt).value(key.id()) is Str {
                    dict_get(old(rt).entries(self.id()), old(rt).value(key.id())->Str_0@)
                } else {
                    None
                };
                &&& r is Ok <==> found is Some
                &&& r is Ok ==> r->Ok_0.id() == found->0 && final(rt).counts() == bump(
                    cleared_counts(*old(rt)),
                    r->Ok_0.id(),
                )
                &&& r is Err ==> r->Err_0.kind@ == "KeyError"@ && final(rt).counts() == cleared_counts(*old(rt))
            }),
    {
        PyError::clear(rt);
        let ghost cleared = *rt;
        assert(rt.value(key.id()) == old(rt).value(key.id()));
        assert(rt.value(self.id()) == old(rt).value(self.id()));
        let k = match &rt.objects[key.as_ptr()].value {
            PyValue::Str(s) => s.clone(),
            _ => {
                return Err(PyError::new("KeyError", "key not found"));
            },
        };
        match self.inner.get_item_str(rt, k.as_str()) {
            Ok(item) => {
                assert(rt.counts() =~= bump(cleared.counts(), item.id()));
                assert(rt.values() =~= cleared.values());
                Ok(item)
            },
            Err(_) => Err(PyError::new("KeyError", "key not found")),
        }
    }

    /// Whether an entry has this key object.
    pub fn contains(&self, rt: &Runtime, key: &PyObjectRef) -> (r: bool)
        requires
            rt.wf(),
            rt.is_dict(self.id()),
            rt.valid(key.id()),
        ensures
            r == (rt.value(key.id()) is Str && dict_get(rt.entries(self.id()), rt.value(key.id())->Str_0@) is Some),
    {
        match &rt.objects[key.as_ptr()].value {
            PyValue::Str(s) => match &rt.objects[self.inner.as_ptr()].value {
                PyValue::Dict(entries) => {
                    assert(crate::runtime::value_ok(rt.value(self.id()), rt.objects@.len() as int));
                    match crate::runtime::find_key_index(entries, s) {
                        Some(i) => {
                            proof {
                                crate::runtime::lemma_dict_get(entries@, s@, i as int);
                            }
                            true
                        },
                        None => {
                            proof { crate::runtime::lemma_dict_get_none(entries@, s@); }
                            false
                        },
                    }
                },
                _ => false,
            },
            _ => false,
        }
    }

    /// The number of entries.
    pub fn len(&self, rt: &Runtime) -> (r: usize)
        requires
            rt.wf(),
            rt.is_dict(self.id()),
        ensures
            r == self.view_in(*rt).len(),
    {
        match &rt.objects[self.inner.as_ptr()].value {
            PyValue::Dict(entries) => entries.len(),
            _ => 0,
        }
    }

    /// Whether the dict has no entries.
    pub fn is_empty(&self, rt: &Runtime) -> (r: bool)
        requires
            rt.wf(),
            rt.is_dict(self.id()),
        ensures
            r == (self.view_in(*rt).len() == 0),
    {
        self.len(rt) == 0
    }

    /// The handle, as a plain object reference.
    pub fn into_object(self) -> (r: PyObjectRef)
        ensures
            r.id() == self.id(),
    {
        self.inner
    }

    /// The handle, borrowed as a plain object reference.
    pub fn as_object(&self) -> (r: &PyObjectRef)
        ensures
            r.id() == self.id(),
    {
        &self.inner
    }

    /// A fresh traversal of the entries, from the first.
    pub fn iter(&self) -> (r: PyDictIter)
        ensures
            r.dict == self.id(),
            r.pos == 0,
    {
        PyDictIter { dict: self.inner.as_ptr(), pos: 0 }
    }
}

/// A traversal of a dict's entries in insertion order.
pub struct PyDictIter {
    pub dict: usize,
    pub pos: usize,
}

impl PyDictIter {
    /// The next (key, value) pair, both new references; the key is a new `str`
    /// object with the entry's text. Absent once every entry has been seen.
    pub fn next(&mut self, rt: &mut Runtime) -> (r: Option<(PyObjectRef, PyObjectRef)>)
        requires
            old(rt).wf(),
            old(rt).is_dict(old(self).dict as int),
        ensures
            final(rt).wf(),
            final(self).dict == old(self).dict,
            Runtime::values_kept(*old(rt), *final(rt)),
            final(rt).pending == old(rt).pending,
            ({
                let d = dict_view(old(rt).entries(old(self).dict as int));
                let pair = r->0;
                if old(self).pos < d.len() {
                    &&& r is Some
                    &&& final(self).pos == old(self).pos + 1
                    &&& final(rt).value(pair.0.id()) is Str
                    &&& final(rt).value(pair.0.id())->Str_0@ == d[old(self).pos as int].0
                    &&& pair.1.id() == d[old(self).pos as int].1
                    &&& pair.0.id() == old(rt).objects@.len()
                    &&& final(rt).counts() == bump(old(rt).counts(), pair.1.id()).push(1)
                } else {
                    &&& r is None
                    &&& *final(rt) == *old(rt)
                    &&& final(self).pos == old(self).pos
                }
            }),
    {
        let entry = match &rt.objects[self.dict].value {
            PyValue::Dict(entries) => {
                if self.pos < entries.len() {
                    assert(crate::runtime::value_ok(rt.value(self.dict as int), rt.objects@.len() as int));
                    Some((entries[self.pos].key.clone(), entries[self.pos].value))
                } else {
                    None
                }
            },
            _ => None,
        };
        match entry {
            Some((key, v)) => {
                self.pos = self.pos + 1;
                rt.incref(v);
                let ghost mid = *rt;
                assert(mid.counts() =~= bump(old(rt).counts(), v as int));
                let k = PyObjectRef::from_str(rt, key.as_str()).unwrap();
                assert(rt.counts() =~= mid.counts().push(1));
                Some((k, PyObjectRef::from_owned(v).unwrap()))
            },
            None => None,
        }
    }
}

} // verus!
