use vstd::prelude::*;

verus! {

/// The null pointer: slot 0 of the heap never holds a live object.
pub const NULL: usize = 0;

/// The `None` singleton.
pub const NONE_ID: usize = 1;

/// The `False` singleton.
pub const FALSE_ID: usize = 2;

/// The `True` singleton.
pub const TRUE_ID: usize = 3;

/// A reference count at this value marks an immortal object: it is never
/// incremented or decremented again.
pub const IMMORTAL: u64 = 0xffff_ffff_ffff_ffff;

/// One key/value pair of a dict, in insertion order.
pub struct DictEntry {
    pub key: String,
    pub value: usize,
}

/// What a foreign object holds. Container items are object ids in the same heap.
pub enum PyValue {
    /// The contents of the null slot.
    Null,
    NoneValue,
    Bool(bool),
    Int(i128),
    /// A double, by its IEEE-754 bit pattern.
    Float(u64),
    Str(String),
    Bytes(Vec<u8>),
    /// A list; an item that is `NULL` has not been set yet.
    List(Vec<usize>),
    /// A tuple; an item that is `NULL` has not been set yet.
    Tuple(Vec<usize>),
    Dict(Vec<DictEntry>),
}

/// The header of every object: its reference count.
#[allow(non_camel_case_types)]
pub struct PyObject_HEAD {
    pub ob_refcnt: u64,
}

/// A foreign object: a header and a value.
pub struct PyObject {
    pub ob_base: PyObject_HEAD,
    pub value: PyValue,
}

/// The exception that the interpreter has raised and nobody has fetched yet.
pub struct PendingError {
    pub kind: String,
    pub message: String,
    /// An owned reference to the exception's `value` attribute, or `NULL`.
    pub value: usize,
}

/// The interpreter's object heap and process-wide state.
pub struct Runtime {
    pub objects: Vec<PyObject>,
    pub pending: Option<PendingError>,
    pub initialized: bool,
    /// The `__main__` namespace dict, once initialized.
    pub globals: usize,
    /// The namespace dict of the `builtins` module, once initialized.
    pub builtins: usize,
}

pub open spec fn inc_count(r: u64) -> u64 {
    if r == IMMORTAL {
        r
    } else {
        (r + 1) as u64
    }
}

pub open spec fn dec_count(r: u64) -> u64 {
    if r == IMMORTAL || r == 0 {
        r
    } else {
        (r - 1) as u64
    }
}

/// No two entries share a key.
pub open spec fn keys_distinct(entries: Seq<DictEntry>) -> bool {
    forall|i: int, j: int|
        0 <= i < j < entries.len() ==> #[trigger] entries[i].key@ != #[trigger] entries[j].key@
}

/// Every id that the value refers to is below `n`; dict values are never null and
/// dict keys are distinct.
pub open spec fn value_ok(v: PyValue, n: int) -> bool {
    match v {
        PyValue::List(items) => forall|i: int| 0 <= i < items@.len() ==> items@[i] < n,
        PyValue::Tuple(items) => forall|i: int| 0 <= i < items@.len() ==> items@[i] < n,
        PyValue::Dict(entries) => keys_distinct(entries@) && forall|i: int|
            0 <= i < entries@.len() ==> 1 <= #[trigger] entries@[i].value < n,
        _ => true,
    }
}

/// The value id stored under `key` in a dict view, if any.
pub open spec fn view_get(d: Seq<(Seq<char>, usize)>, key: Seq<char>) -> Option<usize> {
    if exists|i: int| 0 <= i < d.len() && #[trigger] d[i].0 == key {
        Some(d[choose|i: int| 0 <= i < d.len() && #[trigger] d[i].0 == key].1)
    } else {
        None
    }
}

/// The value id stored under `key`, if any.
pub open spec fn dict_get(entries: Seq<DictEntry>, key: Seq<char>) -> Option<usize> {
    view_get(dict_view(entries), key)
}

/// No two entries of a dict view share a key.
pub open spec fn view_keys_distinct(d: Seq<(Seq<char>, usize)>) -> bool {
    forall|i: int, j: int| 0 <= i < j < d.len() ==> #[trigger] d[i].0 != #[trigger] d[j].0
}

/// A dict's entries as (key text, value id) pairs.
pub open spec fn dict_view(entries: Seq<DictEntry>) -> Seq<(Seq<char>, usize)> {
    entries.map_values(|e: DictEntry| (e.key@, e.value))
}

/// The entries after `d[key] = v`: the value replaced in place where the key is
/// present, a new entry at the end where it is not.
pub open spec fn dict_set(d: Seq<(Seq<char>, usize)>, key: Seq<char>, v: usize) -> Seq<(Seq<char>, usize)> {
    if exists|i: int| 0 <= i < d.len() && #[trigger] d[i].0 == key {
        d.update(choose|i: int| 0 <= i < d.len() && #[trigger] d[i].0 == key, (key, v))
    } else {
        d.push((key, v))
    }
}

pub open spec fn bump(c: Seq<u64>, id: int) -> Seq<u64> {
    c.update(id, inc_count(c[id]))
}

pub open spec fn drop_one(c: Seq<u64>, id: int) -> Seq<u64> {
    c.update(id, dec_count(c[id]))
}

/// With distinct keys, the entry that holds `key` is the one `dict_get` reads.
pub proof fn lemma_dict_get(entries: Seq<DictEntry>, key: Seq<char>, i: int)
    requires
        keys_distinct(entries),
        0 <= i < entries.len(),
        entries[i].key@ == key,
    ensures
        dict_get(entries, key) == Some(entries[i].value),
{
    let d = dict_view(entries);
    assert(d[i].0 == key);
    let j = choose|j: int| 0 <= j < d.len() && #[trigger] d[j].0 == key;
    if j < i {
        assert(entries[j].key@ != entries[i].key@);
    } else if i < j {
        assert(entries[i].key@ != entries[j].key@);
    }
}

/// With no entry holding `key`, `dict_get` finds nothing.
pub proof fn lemma_dict_get_none(entries: Seq<DictEntry>, key: Seq<char>)
    requires
        forall|i: int| 0 <= i < entries.len() ==> #[trigger] entries[i].key@ != key,
    ensures
        dict_get(entries, key) is None,
{
    let d = dict_view(entries);
    assert forall|i: int| 0 <= i < d.len() implies #[trigger] d[i].0 != key by {
        assert(entries[i].key@ != key);
    }
}

/// The keys of every dict of a well-formed heap are distinct.
pub proof fn lemma_dict_keys_distinct(rt: Runtime, id: int)
    requires
        rt.wf(),
        rt.is_dict(id),
    ensures
        view_keys_distinct(dict_view(rt.entries(id))),
{
    assert(value_ok(rt.objects@[id].value, rt.objects@.len() as int));
    let e = rt.entries(id);
    let d = dict_view(e);
    assert forall|i: int, j: int| 0 <= i < j < d.len() implies #[trigger] d[i].0 != #[trigger] d[j].0 by {
        assert(e[i].key@ != e[j].key@);
    }
}

/// Reading a dict view after `d[key] = v`: `key` gives `v`, every other key what
/// it gave before.
pub proof fn lemma_view_get_after_set(d: Seq<(Seq<char>, usize)>, key: Seq<char>, v: usize, other: Seq<char>)
    requires
        view_keys_distinct(d),
    ensures
        view_get(dict_set(d, key, v), key) == Some(v),
        other != key ==> view_get(dict_set(d, key, v), other) == view_get(d, other),
{
    let d2 = dict_set(d, key, v);
    if exists|i: int| 0 <= i < d.len() && #[trigger] d[i].0 == key {
        let c = choose|i: int| 0 <= i < d.len() && #[trigger] d[i].0 == key;
        assert(d2[c].0 == key);
        let j = choose|j: int| 0 <= j < d2.len() && #[trigger] d2[j].0 == key;
        if j != c {
            assert(d2[j] == d[j]);
            if j < c {
                assert(d[j].0 != d[c].0);
            } else {
                assert(d[c].0 != d[j].0);
            }
        }
        if other != key {
            assert forall|i: int| 0 <= i < d.len() implies (#[trigger] d2[i].0 == other) == (d[i].0 == other) by {
                if i == c {
                } else {
                    assert(d2[i] == d[i]);
                }
            }
            if exists|i: int| 0 <= i < d.len() && #[trigger] d[i].0 == other {
                let a = choose|i: int| 0 <= i < d.len() && #[trigger] d[i].0 == other;
                assert(a != c);
                assert(d2[a] == d[a]);
                assert(d2[a].0 == other);
                let b = choose|i: int| 0 <= i < d2.len() && #[trigger] d2[i].0 == other;
                assert(b != c);
                assert(d2[b] == d[b]);
                if a < b {
                    assert(d[a].0 != d[b].0);
                } else if b < a {
                    assert(d[b].0 != d[a].0);
                }
            } else {
                assert forall|i: int| 0 <= i < d2.len() implies #[trigger] d2[i].0 != other by {
                    if i != c {
                        assert(d2[i] == d[i]);
                    }
                }
            }
        }
    } else {
        assert(d2 == d.push((key, v)));
        assert(d2[d.len() as int].0 == key);
        let j = choose|j: int| 0 <= j < d2.len() && #[trigger] d2[j].0 == key;
        if j < d.len() {
            assert(d2[j] == d[j]);
        }
        if other != key {
            if exists|i: int| 0 <= i < d.len() && #[trigger] d[i].0 == other {
                let a = choose|i: int| 0 <= i < d.len() && #[trigger] d[i].0 == other;
                assert(d2[a] == d[a]);
                let b = choose|i: int| 0 <= i < d2.len() && #[trigger] d2[i].0 == other;
                assert(b < d.len());
                assert(d2[b] == d[b]);
                if a < b {
                    assert(d[a].0 != d[b].0);
                } else if b < a {
                    assert(d[b].0 != d[a].0);
                }
            } else {
                assert forall|i: int| 0 <= i < d2.len() implies #[trigger] d2[i].0 != other by {
                    if i < d.len() {
                        assert(d2[i] == d[i]);
                    }
                }
            }
        }
    }
}

impl Runtime {
    pub open spec fn len(&self) -> int {
        self.objects@.len() as int
    }

    /// A non-null id of an object of this heap.
    pub open spec fn valid(&self, id: int) -> bool {
        1 <= id < self.values().len()
    }

    pub open spec fn value(&self, id: int) -> PyValue {
        self.values()[id]
    }

    pub open spec fn refcnt(&self, id: int) -> u64 {
        self.counts()[id]
    }

    pub open spec fn is_dict(&self, id: int) -> bool {
        self.valid(id) && self.value(id) is Dict
    }

    pub open spec fn entries(&self, id: int) -> Seq<DictEntry> {
        self.value(id)->Dict_0@
    }

    pub open spec fn wf(&self) -> bool {
        &&& self.objects@.len() >= 4
        &&& self.value(NULL as int) is Null
        &&& self.value(NONE_ID as int) is NoneValue
        &&& self.value(FALSE_ID as int) == PyValue::Bool(false)
        &&& self.value(TRUE_ID as int) == PyValue::Bool(true)
        &&& self.refcnt(NONE_ID as int) == IMMORTAL
        &&& self.refcnt(FALSE_ID as int) == IMMORTAL
        &&& self.refcnt(TRUE_ID as int) == IMMORTAL
        &&& forall|id: int|
            0 <= id < self.objects@.len() ==> #[trigger] value_ok(
                self.objects@[id].value,
                self.objects@.len() as int,
            )
        &&& self.initialized ==> self.is_dict(self.globals as int) && self.is_dict(
            self.builtins as int,
        )
        &&& self.pending is Some ==> (self.pending->0.value == NULL || self.valid(
            self.pending->0.value as int,
        ))
    }

    pub open spec fn counts(&self) -> Seq<u64> {
        self.objects@.map_values(|o: PyObject| o.ob_base.ob_refcnt)
    }

    pub open spec fn values(&self) -> Seq<PyValue> {
        self.objects@.map_values(|o: PyObject| o.value)
    }

    /// The process-wide state other than the objects is the same.
    pub open spec fn same_state(a: Runtime, b: Runtime) -> bool {
        &&& b.pending == a.pending
        &&& b.initialized == a.initialized
        &&& b.globals == a.globals
        &&& b.builtins == a.builtins
    }

    /// `b` holds every object of `a` with the same value (counts may differ), and
    /// the process-wide state is the same.
    pub open spec fn values_kept(a: Runtime, b: Runtime) -> bool {
        &&& a.objects@.len() <= b.objects@.len()
        &&& forall|id: int| 0 <= id < a.objects@.len() ==> #[trigger] b.value(id) == a.value(id)
        &&& b.initialized == a.initialized
        &&& b.globals == a.globals
        &&& b.builtins == a.builtins
    }

    /// Only the count of `id` changed, to `count`.
    pub open spec fn count_set(a: Runtime, b: Runtime, id: int, count: u64) -> bool {
        &&& b.objects@ == a.objects@.update(
            id,
            PyObject { ob_base: PyObject_HEAD { ob_refcnt: count }, value: a.value(id) },
        )
        &&& b.pending == a.pending
        &&& b.initialized == a.initialized
        &&& b.globals == a.globals
        &&& b.builtins == a.builtins
    }

    /// A fresh heap: the null slot and the three immortal singletons.
    pub fn new() -> (r: Runtime)
        ensures
            r.wf(),
            r.objects@.len() == 4,
            r.pending is None,
            !r.initialized,
    {
        let mut objects: Vec<PyObject> = Vec::new();
        objects.push(PyObject { ob_base: PyObject_HEAD { ob_refcnt: 0 }, value: PyValue::Null });
        objects.push(
            PyObject { ob_base: PyObject_HEAD { ob_refcnt: IMMORTAL }, value: PyValue::NoneValue },
        );
        objects.push(
            PyObject { ob_base: PyObject_HEAD { ob_refcnt: IMMORTAL }, value: PyValue::Bool(false) },
        );
        objects.push(
            PyObject { ob_base: PyObject_HEAD { ob_refcnt: IMMORTAL }, value: PyValue::Bool(true) },
        );
        let r = Runtime { objects, pending: None, initialized: false, globals: NULL, builtins: NULL };
        assert forall|id: int| 0 <= id < r.objects@.len() implies #[trigger] value_ok(
            r.objects@[id].value,
            r.objects@.len() as int,
        ) by {}
        r
    }

    /// Places a new object with a count of one and returns its id (a new reference).
    pub fn allocate(&mut self, value: PyValue) -> (id: usize)
        requires
            old(self).wf(),
            value_ok(value, old(self).objects@.len() as int),
        ensures
            final(self).wf(),
            id == old(self).objects@.len(),
            final(self).objects@ == old(self).objects@.push(
                PyObject { ob_base: PyObject_HEAD { ob_refcnt: 1 }, value },
            ),
            final(self).pending == old(self).pending,
            Runtime::values_kept(*old(self), *final(self)),
    {
        let id = self.objects.len();
        let ghost n = self.objects@.len() as int;
        proof {
            lemma_value_ok_grow(value, n, n + 1);
        }
        self.objects.push(PyObject { ob_base: PyObject_HEAD { ob_refcnt: 1 }, value });
        assert forall|i: int| 0 <= i < self.objects@.len() implies #[trigger] value_ok(
            self.objects@[i].value,
            self.objects@.len() as int,
        ) by {
            if i < n {
                assert(value_ok(old(self).objects@[i].value, n));
                lemma_value_ok_grow(old(self).objects@[i].value, n, n + 1);
            }
        }
        id
    }

    /// The count of `id`.
    pub fn refcount(&self, id: usize) -> (r: u64)
        requires
            id < self.objects@.len(),
        ensures
            r == self.refcnt(id as int),
    {
        self.objects[id].ob_base.ob_refcnt
    }

    /// Adds one to the count of `id`, unless it is immortal.
    pub fn incref(&mut self, id: usize)
        requires
            old(self).wf(),
            old(self).valid(id as int),
        ensures
            final(self).wf(),
            Runtime::count_set(*old(self), *final(self), id as int, inc_count(old(self).refcnt(id as int))),
            Runtime::values_kept(*old(self), *final(self)),
    {
        let c = self.objects[id].ob_base.ob_refcnt;
        let n = if c == IMMORTAL { c } else { c + 1 };
        self.set_count(id, n);
    }

    /// Takes one from the count of `id`, unless it is immortal or already zero.
    pub fn decref(&mut self, id: usize)
        requires
            old(self).wf(),
            old(self).valid(id as int),
        ensures
            final(self).wf(),
            Runtime::count_set(*old(self), *final(self), id as int, dec_count(old(self).refcnt(id as int))),
            Runtime::values_kept(*old(self), *final(self)),
    {
        let c = self.objects[id].ob_base.ob_refcnt;
        let n = if c == IMMORTAL || c == 0 { c } else { c - 1 };
        self.set_count(id, n);
    }

    fn set_count(&mut self, id: usize, count: u64)
        requires
            old(self).wf(),
            old(self).valid(id as int),
            id == NONE_ID || id == FALSE_ID || id == TRUE_ID ==> count == IMMORTAL,
        ensures
            final(self).wf(),
            Runtime::count_set(*old(self), *final(self), id as int, count),
            Runtime::values_kept(*old(self), *final(self)),
    {
        let value = self.take_value(id);
        self.objects.set(id, PyObject { ob_base: PyObject_HEAD { ob_refcnt: count }, value });
        assert(self.objects@ =~= old(self).objects@.update(
            id as int,
            PyObject { ob_base: PyObject_HEAD { ob_refcnt: count }, value: old(self).value(id as int) },
        ));
        assert forall|i: int| 0 <= i < self.objects@.len() implies #[trigger] value_ok(
            self.objects@[i].value,
            self.objects@.len() as int,
        ) by {
            assert(value_ok(old(self).objects@[i].value, self.objects@.len() as int));
        }
    }

    /// Moves the value of `id` out, leaving `Null` in its place.
    fn take_value(&mut self, id: usize) -> (v: PyValue)
        requires
            id < old(self).objects@.len(),
        ensures
            v == old(self).value(id as int),
            final(self).objects@ == old(self).objects@.update(
                id as int,
                PyObject {
                    ob_base: PyObject_HEAD { ob_refcnt: old(self).refcnt(id as int) },
                    value: PyValue::Null,
                },
            ),
            final(self).pending == old(self).pending,
            final(self).initialized == old(self).initialized,
            final(self).globals == old(self).globals,
            final(self).builtins == old(self).builtins,
    {
        let count = self.objects[id].ob_base.ob_refcnt;
        let mut slot = PyObject { ob_base: PyObject_HEAD { ob_refcnt: count }, value: PyValue::Null };
        std::mem::swap(&mut slot, &mut self.objects[id]);
        slot.value
    }
}

impl Runtime {
    /// `d[key] = v` on the dict `id`, with no change of counts; returns the value
    /// id that was replaced, if any.
    pub fn dict_insert(&mut self, id: usize, key: String, v: usize) -> (replaced: Option<usize>)
        requires
            old(self).wf(),
            old(self).is_dict(id as int),
            old(self).valid(v as int),
        ensures
            final(self).wf(),
            final(self).is_dict(id as int),
            final(self).counts() == old(self).counts(),
            final(self).objects@.len() == old(self).objects@.len(),
            forall|i: int| 0 <= i < old(self).objects@.len() && i != id ==> #[trigger] final(self).value(i) == old(self).value(i),
            dict_view(final(self).entries(id as int)) == dict_set(dict_view(old(self).entries(id as int)), key@, v),
            replaced == dict_get(old(self).entries(id as int), key@),
            replaced is Some ==> old(self).valid(replaced->0 as int),
            Runtime::same_state(*old(self), *final(self)),
    {
        let ghost d0 = dict_view(old(self).entries(id as int));
        let ghost n = old(self).objects@.len() as int;
        assert(value_ok(old(self).objects@[id as int].value, n));
        let count = self.objects[id].ob_base.ob_refcnt;
        let value = self.take_value(id);
        let mut entries = match value {
            PyValue::Dict(e) => e,
            _ => Vec::new(),
        };
        let ghost e0 = entries@;
        let found = find_key_index(&entries, &key);
        let replaced = match found {
            Some(i) => {
                let w = entries[i].value;
                proof {
                    lemma_dict_get(e0, key@, i as int);
                    assert(d0[i as int].0 == key@);
                    let c = choose|j: int| 0 <= j < d0.len() && #[trigger] d0[j].0 == key@;
                    if c != i {
                        if c < i {
                            assert(e0[c].key@ != e0[i as int].key@);
                        } else {
                            assert(e0[i as int].key@ != e0[c].key@);
                        }
                    }
                }
                entries.set(i, DictEntry { key, value: v });
                Some(w)
            },
            None => {
                proof {
                    lemma_dict_get_none(e0, key@);
                    assert forall|j: int| 0 <= j < d0.len() implies #[trigger] d0[j].0 != key@ by {
                        assert(e0[j].key@ != key@);
                    }
                }
                entries.push(DictEntry { key, value: v });
                None
            },
        };
        assert(dict_view(entries@) =~= dict_set(d0, key@, v));
        assert(keys_distinct(entries@)) by {
            assert forall|a: int, b: int| 0 <= a < b < entries@.len() implies #[trigger] entries@[a].key@
                != #[trigger] entries@[b].key@ by {
                if b < e0.len() {
                    assert(e0[a].key@ != e0[b].key@);
                }
            }
        }
        self.objects.set(
            id,
            PyObject { ob_base: PyObject_HEAD { ob_refcnt: count }, value: PyValue::Dict(entries) },
        );
        assert(self.counts() =~= old(self).counts());
        assert forall|j: int| 0 <= j < self.objects@.len() implies #[trigger] value_ok(
            self.objects@[j].value,
            self.objects@.len() as int,
        ) by {
            if j != id {
                assert(value_ok(old(self).objects@[j].value, n));
            }
        }
        replaced
    }
}

impl Runtime {
    /// `list[index] = v` with no change of counts; returns the id it replaces.
    pub fn list_replace(&mut self, id: usize, index: usize, v: usize) -> (replaced: usize)
        requires
            old(self).wf(),
            old(self).valid(id as int),
            old(self).value(id as int) is List,
            index < old(self).value(id as int)->List_0@.len(),
            old(self).valid(v as int),
        ensures
            final(self).wf(),
            final(self).counts() == old(self).counts(),
            final(self).objects@.len() == old(self).objects@.len(),
            forall|i: int| 0 <= i < old(self).objects@.len() && i != id ==> #[trigger] final(self).value(i) == old(self).value(i),
            final(self).value(id as int) is List,
            final(self).value(id as int)->List_0@ == old(self).value(id as int)->List_0@.update(index as int, v),
            replaced == old(self).value(id as int)->List_0@[index as int],
            replaced < old(self).objects@.len(),
            Runtime::same_state(*old(self), *final(self)),
    {
        let ghost n = old(self).objects@.len() as int;
        assert(value_ok(old(self).objects@[id as int].value, n));
        let count = self.objects[id].ob_base.ob_refcnt;
        let value = self.take_value(id);
        let mut items = match value {
            PyValue::List(items) => items,
            _ => Vec::new(),
        };
        let replaced = items[index];
        items.set(index, v);
        self.objects.set(id, PyObject { ob_base: PyObject_HEAD { ob_refcnt: count }, value: PyValue::List(items) });
        assert(self.counts() =~= old(self).counts());
        assert forall|j: int| 0 <= j < self.objects@.len() implies #[trigger] value_ok(
            self.objects@[j].value,
            self.objects@.len() as int,
        ) by {
            if j != id {
                assert(value_ok(old(self).objects@[j].value, n));
            }
        }
        replaced
    }
}

/// The position of the entry with this key, if any.
pub fn find_key_index(entries: &Vec<DictEntry>, key: &String) -> (r: Option<usize>)
    ensures
        r is Some ==> r->0 < entries@.len() && entries@[r->0 as int].key@ == key@,
        r is None ==> forall|i: int| 0 <= i < entries@.len() ==> #[trigger] entries@[i].key@ != key@,
{
    let mut i: usize = 0;
    while i < entries.len()
        invariant
            i <= entries@.len(),
            forall|j: int| 0 <= j < i ==> #[trigger] entries@[j].key@ != key@,
        decreases entries@.len() - i,
    {
        if entries[i].key == *key {
            return Some(i);
        }
        i = i + 1;
    }
    None
}

pub proof fn lemma_value_ok_grow(v: PyValue, n: int, m: int)
    requires
        value_ok(v, n),
        n <= m,
    ensures
        value_ok(v, m),
{
}

} // verus!
