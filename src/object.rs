use vstd::prelude::*;
use vstd::slice::slice_to_vec;
use crate::runtime::{
    Runtime, PyValue, PendingError, value_ok, dict_get, lemma_dict_get, inc_count,
    dec_count, NULL, NONE_ID, FALSE_ID, TRUE_ID, IMMORTAL,
};

verus! {

/// Python truthiness of a value.
pub open spec fn truthy(v: PyValue) -> bool {
    match v {
        PyValue::Null => false,
        PyValue::NoneValue => false,
        PyValue::Bool(b) => b,
        PyValue::Int(n) => n != 0,
        PyValue::Float(bits) => bits % 0x8000_0000_0000_0000 != 0,
        PyValue::Str(s) => s@.len() > 0,
        PyValue::Bytes(b) => b@.len() > 0,
        PyValue::List(items) => items@.len() > 0,
        PyValue::Tuple(items) => items@.len() > 0,
        PyValue::Dict(entries) => entries@.len() > 0,
    }
}

/// The name of the value's type.
pub open spec fn kind_of(v: PyValue) -> Seq<char> {
    match v {
        PyValue::Null => "NULL"@,
        PyValue::NoneValue => "NoneType"@,
        PyValue::Bool(_) => "bool"@,
        PyValue::Int(_) => "int"@,
        PyValue::Float(_) => "float"@,
        PyValue::Str(_) => "str"@,
        PyValue::Bytes(_) => "bytes"@,
        PyValue::List(_) => "list"@,
        PyValue::Tuple(_) => "tuple"@,
        PyValue::Dict(_) => "dict"@,
    }
}

/// The integer a value stands for where an index or a C integer is asked for.
pub open spec fn as_index(v: PyValue) -> Option<int> {
    match v {
        PyValue::Int(n) => Some(n as int),
        PyValue::Bool(b) => Some(if b { 1int } else { 0int }),
        _ => None,
    }
}

/// What `PyLong_AsLongLong` gives: the value, or the kind of error.
pub open spec fn i64_of(v: PyValue) -> Result<i64, Seq<char>> {
    match as_index(v) {
        Some(n) => if i64::MIN <= n <= i64::MAX {
            Ok(n as i64)
        } else {
            Err("OverflowError"@)
        },
        None => Err("TypeError"@),
    }
}

/// What `PyLong_AsUnsignedLongLong` gives: the value, or the kind of error.
pub open spec fn u64_of(v: PyValue) -> Result<u64, Seq<char>> {
    match as_index(v) {
        Some(n) => if 0 <= n <= u64::MAX {
            Ok(n as u64)
        } else {
            Err("OverflowError"@)
        },
        None => Err("TypeError"@),
    }
}

/// `obj[key]`: the id of the item, or the kind of error.
pub open spec fn subscript(rt: Runtime, obj: int, key: int) -> Result<usize, Seq<char>> {
    match rt.value(obj) {
        PyValue::Dict(entries) => match rt.value(key) {
            PyValue::Str(k) => subscript_text(rt, obj, k@),
            PyValue::List(_) => Err("TypeError"@),
            PyValue::Dict(_) => Err("TypeError"@),
            _ => Err("KeyError"@),
        },
        PyValue::List(items) => seq_item(items@, rt.value(key)),
        PyValue::Tuple(items) => seq_item(items@, rt.value(key)),
        _ => Err("TypeError"@),
    }
}

/// `obj[key]` for a `str` key: the id of the item, or the kind of error.
pub open spec fn subscript_text(rt: Runtime, obj: int, key: Seq<char>) -> Result<usize, Seq<char>> {
    match rt.value(obj) {
        PyValue::Dict(entries) => match dict_get(entries@, key) {
            Some(v) => Ok(v),
            None => Err("KeyError"@),
        },
        _ => Err("TypeError"@),
    }
}

/// The length of a list or tuple, or the kind of error.
pub open spec fn seq_len(v: PyValue) -> Result<usize, Seq<char>> {
    match v {
        PyValue::List(items) => Ok(items@.len() as usize),
        PyValue::Tuple(items) => Ok(items@.len() as usize),
        _ => Err("TypeError"@),
    }
}

/// The item ids of a list or tuple value.
pub open spec fn seq_ids(v: PyValue) -> Seq<usize> {
    match v {
        PyValue::List(items) => items@,
        PyValue::Tuple(items) => items@,
        _ => Seq::empty(),
    }
}

/// Item `key` of a list or tuple, counting from the end for a negative index.
pub open spec fn seq_item(items: Seq<usize>, key: PyValue) -> Result<usize, Seq<char>> {
    match as_index(key) {
        Some(n) => {
            let j = if n < 0 {
                n + items.len()
            } else {
                n
            };
            if 0 <= j < items.len() && items[j] != NULL {
                Ok(items[j])
            } else {
                Err("IndexError"@)
            }
        },
        None => Err("TypeError"@),
    }
}

/// Why `obj[key] = value` fails, if it does.
pub open spec fn store_error(rt: Runtime, obj: int, key: int) -> Option<Seq<char>> {
    match rt.value(obj) {
        PyValue::Dict(_) => if rt.value(key) is Str {
            None
        } else {
            Some("TypeError"@)
        },
        PyValue::List(items) => match as_index(rt.value(key)) {
            Some(n) => {
                let j = if n < 0 {
                    n + items@.len()
                } else {
                    n
                };
                if 0 <= j < items@.len() {
                    None
                } else {
                    Some("IndexError"@)
                }
            },
            None => Some("TypeError"@),
        },
        _ => Some("TypeError"@),
    }
}

/// The list position that `key` names in a list of `len` items.
pub open spec fn list_slot(len: int, key: PyValue) -> int {
    let n = as_index(key)->0;
    if n < 0 {
        n + len
    } else {
        n
    }
}

/// An owned reference to a foreign object: it accounts for exactly one unit of the
/// object's reference count until it is released or handed over with `into_ptr`.
#[derive(Debug)]
pub struct PyObjectRef {
    ptr: usize,
}

/// An exception of the interpreter, captured as plain values.
#[derive(Debug)]
pub struct PyError {
    pub kind: String,
    pub message: String,
    /// For `StopIteration`, the generator's return value.
    pub value: Option<PyObjectRef>,
}

/// The text `"{kind}: {message}"`, or `kind` alone for an empty message.
pub open spec fn err_text(kind: Seq<char>, message: Seq<char>) -> Seq<char> {
    if message.len() == 0 {
        kind
    } else {
        kind + ": "@ + message
    }
}

impl PyObjectRef {
    pub closed spec fn id(&self) -> int {
        self.ptr as int
    }

    pub proof fn lemma_id_range(&self)
        ensures
            0 <= self.id() <= usize::MAX,
    {
    }

    /// Claims a reference that the caller already holds; absent for null.
    pub fn from_owned(ptr: usize) -> (r: Option<PyObjectRef>)
        ensures
            r is None <==> ptr == NULL,
            r is Some ==> r->0.id() == ptr,
    {
        if ptr == NULL {
            None
        } else {
            Some(PyObjectRef { ptr })
        }
    }

    /// Takes a new reference to a borrowed pointer; absent for null.
    pub fn from_borrowed(rt: &mut Runtime, ptr: usize) -> (r: Option<PyObjectRef>)
        requires
            old(rt).wf(),
            ptr == NULL || old(rt).valid(ptr as int),
        ensures
            final(rt).wf(),
            r is None <==> ptr == NULL,
            r is None ==> *final(rt) == *old(rt),
            r is Some ==> r->0.id() == ptr && Runtime::count_set(
                *old(rt),
                *final(rt),
                ptr as int,
                inc_count(old(rt).refcnt(ptr as int)),
            ),
            Runtime::values_kept(*old(rt), *final(rt)),
    {
        if ptr == NULL {
            None
        } else {
            rt.incref(ptr);
            Some(PyObjectRef { ptr })
        }
    }

    /// The pointer, without giving up the reference.
    pub fn as_ptr(&self) -> (r: usize)
        ensures
            r == self.id(),
    {
        self.ptr
    }

    /// The pointer, with the reference handed to the caller: nothing is released.
    pub fn into_ptr(self) -> (r: usize)
        ensures
            r == self.id(),
    {
        self.ptr
    }

    /// A second handle on the same object, with its own reference.
    pub fn clone_ref(&self, rt: &mut Runtime) -> (r: PyObjectRef)
        requires
            old(rt).wf(),
            old(rt).valid(self.id()),
        ensures
            final(rt).wf(),
            r.id() == self.id(),
            Runtime::count_set(*old(rt), *final(rt), self.id(), inc_count(old(rt).refcnt(self.id()))),
            Runtime::values_kept(*old(rt), *final(rt)),
    {
        rt.incref(self.ptr);
        PyObjectRef { ptr: self.ptr }
    }

    /// Gives the reference back: the count drops by one.
    pub fn release(self, rt: &mut Runtime)
        requires
            old(rt).wf(),
            old(rt).valid(self.id()),
        ensures
            final(rt).wf(),
            Runtime::count_set(*old(rt), *final(rt), self.id(), dec_count(old(rt).refcnt(self.id()))),
            Runtime::values_kept(*old(rt), *final(rt)),
    {
        rt.decref(self.ptr);
    }

    /// The `None` singleton (immortal, so no count changes).
    pub fn none() -> (r: PyObjectRef)
        ensures
            r.id() == NONE_ID,
    {
        PyObjectRef { ptr: NONE_ID }
    }

    /// The `True` or `False` singleton.
    pub fn from_bool(v: bool) -> (r: PyObjectRef)
        ensures
            r.id() == if v {
                TRUE_ID
            } else {
                FALSE_ID
            },
    {
        PyObjectRef { ptr: if v { TRUE_ID } else { FALSE_ID } }
    }

    fn fresh(rt: &mut Runtime, value: PyValue) -> (r: PyObjectRef)
        requires
            old(rt).wf(),
            value_ok(value, old(rt).objects@.len() as int),
        ensures
            final(rt).wf(),
            r.id() == old(rt).objects@.len(),
            final(rt).objects@.len() == old(rt).objects@.len() + 1,
            final(rt).objects@ == old(rt).objects@.push(
                crate::runtime::PyObject {
                    ob_base: crate::runtime::PyObject_HEAD { ob_refcnt: 1 },
                    value,
                },
            ),
            final(rt).pending == old(rt).pending,
            final(rt).counts() == old(rt).counts().push(1),
            Runtime::values_kept(*old(rt), *final(rt)),
    {
        let id = rt.allocate(value);
        assert(rt.counts() =~= old(rt).counts().push(1));
        PyObjectRef { ptr: id }
    }

    /// A new `str` object.
    pub fn from_str(rt: &mut Runtime, s: &str) -> (r: Result<PyObjectRef, PyError>)
        requires
            old(rt).wf(),
        ensures
            final(rt).wf(),
            r is Ok,
            r->Ok_0.id() == old(rt).objects@.len(),
            final(rt).objects@.len() == old(rt).objects@.len() + 1,
            final(rt).value(r->Ok_0.id()) is Str,
            final(rt).value(r->Ok_0.id())->Str_0@ == s@,
            final(rt).refcnt(r->Ok_0.id()) == 1,
            final(rt).counts() == old(rt).counts().push(1),
            final(rt).pending == old(rt).pending,
            Runtime::values_kept(*old(rt), *final(rt)),
    {
        let text = String::from_str(s);
        Ok(Self::fresh(rt, PyValue::Str(text)))
    }

    /// A new `int` object from a signed value.
    pub fn from_i64(rt: &mut Runtime, v: i64) -> (r: Result<PyObjectRef, PyError>)
        requires
            old(rt).wf(),
        ensures
            final(rt).wf(),
            r is Ok,
            r->Ok_0.id() == old(rt).objects@.len(),
            final(rt).objects@.len() == old(rt).objects@.len() + 1,
            final(rt).value(r->Ok_0.id()) == PyValue::Int(v as i128),
            final(rt).refcnt(r->Ok_0.id()) == 1,
            final(rt).counts() == old(rt).counts().push(1),
            final(rt).pending == old(rt).pending,
            Runtime::values_kept(*old(rt), *final(rt)),
    {
        Ok(Self::fresh(rt, PyValue::Int(v as i128)))
    }

    /// A new `int` object from an unsigned value.
    pub fn from_u64(rt: &mut Runtime, v: u64) -> (r: Result<PyObjectRef, PyError>)
        requires
            old(rt).wf(),
        ensures
            final(rt).wf(),
            r is Ok,
            r->Ok_0.id() == old(rt).objects@.len(),
            final(rt).objects@.len() == old(rt).objects@.len() + 1,
            final(rt).value(r->Ok_0.id()) == PyValue::Int(v as i128),
            final(rt).refcnt(r->Ok_0.id()) == 1,
            final(rt).counts() == old(rt).counts().push(1),
            final(rt).pending == old(rt).pending,
            Runtime::values_kept(*old(rt), *final(rt)),
    {
        Ok(Self::fresh(rt, PyValue::Int(v as i128)))
    }

    /// A new `float` object from the bit pattern of a double.
    pub fn from_f64_bits(rt: &mut Runtime, bits: u64) -> (r: Result<PyObjectRef, PyError>)
        requires
            old(rt).wf(),
        ensures
            final(rt).wf(),
            r is Ok,
            r->Ok_0.id() == old(rt).objects@.len(),
            final(rt).objects@.len() == old(rt).objects@.len() + 1,
            final(rt).value(r->Ok_0.id()) == PyValue::Float(bits),
            final(rt).refcnt(r->Ok_0.id()) == 1,
            final(rt).counts() == old(rt).counts().push(1),
            final(rt).pending == old(rt).pending,
            Runtime::values_kept(*old(rt), *final(rt)),
    {
        Ok(Self::fresh(rt, PyValue::Float(bits)))
    }

    /// A new `bytes` object holding a copy of `data`.
    pub fn from_bytes(rt: &mut Runtime, data: &[u8]) -> (r: Result<PyObjectRef, PyError>)
        requires
            old(rt).wf(),
        ensures
            final(rt).wf(),
            r is Ok,
            r->Ok_0.id() == old(rt).objects@.len(),
            final(rt).objects@.len() == old(rt).objects@.len() + 1,
            final(rt).value(r->Ok_0.id()) is Bytes,
            final(rt).value(r->Ok_0.id())->Bytes_0@ == data@,
            final(rt).refcnt(r->Ok_0.id()) == 1,
            final(rt).counts() == old(rt).counts().push(1),
            final(rt).pending == old(rt).pending,
            Runtime::values_kept(*old(rt), *final(rt)),
    {
        let copy = slice_to_vec(data);
        Ok(Self::fresh(rt, PyValue::Bytes(copy)))
    }

    /// Whether this is the `None` singleton.
    pub fn is_none(&self) -> (r: bool)
        ensures
            r == (self.id() == NONE_ID),
    {
        self.ptr == NONE_ID
    }

    /// Python truthiness, `bool(obj)`.
    pub fn is_true(&self, rt: &Runtime) -> (r: bool)
        requires
            rt.wf(),
            rt.valid(self.id()),
        ensures
            r == truthy(rt.value(self.id())),
    {
        match &rt.objects[self.ptr].value {
            PyValue::Null => false,
            PyValue::NoneValue => false,
            PyValue::Bool(b) => *b,
            PyValue::Int(n) => *n != 0,
            PyValue::Float(bits) => *bits % 0x8000_0000_0000_0000 != 0,
            PyValue::Str(s) => s.unicode_len() > 0,
            PyValue::Bytes(b) => b.len() > 0,
            PyValue::List(items) => items.len() > 0,
            PyValue::Tuple(items) => items.len() > 0,
            PyValue::Dict(entries) => entries.len() > 0,
        }
    }

    /// Extraction as a Rust `bool`, by truthiness.
    pub fn extract_bool(&self, rt: &Runtime) -> (r: bool)
        requires
            rt.wf(),
            rt.valid(self.id()),
        ensures
            r == truthy(rt.value(self.id())),
    {
        self.is_true(rt)
    }

    /// The name of the object's type.
    pub fn kind_name(&self, rt: &Runtime) -> (r: String)
        requires
            rt.wf(),
            rt.valid(self.id()),
        ensures
            r@ == kind_of(rt.value(self.id())),
    {
        let name = match &rt.objects[self.ptr].value {
            PyValue::Null => "NULL",
            PyValue::NoneValue => "NoneType",
            PyValue::Bool(_) => "bool",
            PyValue::Int(_) => "int",
            PyValue::Float(_) => "float",
            PyValue::Str(_) => "str",
            PyValue::Bytes(_) => "bytes",
            PyValue::List(_) => "list",
            PyValue::Tuple(_) => "tuple",
            PyValue::Dict(_) => "dict",
        };
        String::from_str(name)
    }

    /// The text of a `str` object.
    pub fn extract_str(&self, rt: &Runtime) -> (r: Result<String, PyError>)
        requires
            rt.wf(),
            rt.valid(self.id()),
        ensures
            r is Ok <==> rt.value(self.id()) is Str,
            r is Ok ==> r->Ok_0@ == rt.value(self.id())->Str_0@,
            r is Err ==> r->Err_0.kind@ == "TypeError"@ && r->Err_0.value is None,
    {
        match &rt.objects[self.ptr].value {
            PyValue::Str(s) => Ok(s.clone()),
            _ => Err(PyError::new("TypeError", "bad argument type for built-in operation")),
        }
    }

    /// The object as a C `long long`.
    pub fn extract_i64(&self, rt: &Runtime) -> (r: Result<i64, PyError>)
        requires
            rt.wf(),
            rt.valid(self.id()),
        ensures
            r is Ok <==> i64_of(rt.value(self.id())) is Ok,
            r is Ok ==> r->Ok_0 == i64_of(rt.value(self.id()))->Ok_0,
            r is Err ==> r->Err_0.kind@ == i64_of(rt.value(self.id()))->Err_0 && r->Err_0.value is None,
    {
        match &rt.objects[self.ptr].value {
            PyValue::Int(n) => {
                if *n >= i64::MIN as i128 && *n <= i64::MAX as i128 {
                    Ok(*n as i64)
                } else {
                    Err(PyError::new("OverflowError", "Python int too large to convert to C long"))
                }
            },
            PyValue::Bool(b) => Ok(if *b { 1 } else { 0 }),
            _ => Err(PyError::new("TypeError", "an integer is required")),
        }
    }

    /// The object as a C `unsigned long long`.
    pub fn extract_u64(&self, rt: &Runtime) -> (r: Result<u64, PyError>)
        requires
            rt.wf(),
            rt.valid(self.id()),
        ensures
            r is Ok <==> u64_of(rt.value(self.id())) is Ok,
            r is Ok ==> r->Ok_0 == u64_of(rt.value(self.id()))->Ok_0,
            r is Err ==> r->Err_0.kind@ == u64_of(rt.value(self.id()))->Err_0 && r->Err_0.value is None,
    {
        match &rt.objects[self.ptr].value {
            PyValue::Int(n) => {
                if *n < 0 {
                    Err(PyError::new("OverflowError", "can't convert negative int to unsigned"))
                } else if *n <= u64::MAX as i128 {
                    Ok(*n as u64)
                } else {
                    Err(PyError::new("OverflowError", "int too big to convert"))
                }
            },
            PyValue::Bool(b) => Ok(if *b { 1 } else { 0 }),
            _ => Err(PyError::new("TypeError", "an integer is required")),
        }
    }

    /// The bit pattern of a `float` object's double.
    pub fn extract_f64_bits(&self, rt: &Runtime) -> (r: Result<u64, PyError>)
        requires
            rt.wf(),
            rt.valid(self.id()),
        ensures
            r is Ok <==> rt.value(self.id()) is Float,
            r is Ok ==> r->Ok_0 == rt.value(self.id())->Float_0,
            r is Err ==> r->Err_0.kind@ == "TypeError"@ && r->Err_0.value is None,
    {
        match &rt.objects[self.ptr].value {
            PyValue::Float(bits) => Ok(*bits),
            _ => Err(PyError::new("TypeError", "must be real number")),
        }
    }

    /// A copy of a `bytes` object's contents.
    pub fn extract_bytes(&self, rt: &Runtime) -> (r: Result<Vec<u8>, PyError>)
        requires
            rt.wf(),
            rt.valid(self.id()),
        ensures
            r is Ok <==> rt.value(self.id()) is Bytes,
            r is Ok ==> r->Ok_0@ == rt.value(self.id())->Bytes_0@,
            r is Err ==> r->Err_0.kind@ == "TypeError"@ && r->Err_0.value is None,
    {
        match &rt.objects[self.ptr].value {
            PyValue::Bytes(b) => Ok(slice_to_vec(b.as_slice())),
            _ => Err(PyError::new("TypeError", "expected bytes")),
        }
    }
}

impl PyObjectRef {
    /// `obj[key]`, as a new reference to the item.
    pub fn get_item(&self, rt: &mut Runtime, key: &PyObjectRef) -> (r: Result<PyObjectRef, PyError>)
        requires
            old(rt).wf(),
            old(rt).valid(self.id()),
            old(rt).valid(key.id()),
        ensures
            final(rt).wf(),
            r is Ok <==> subscript(*old(rt), self.id(), key.id()) is Ok,
            r is Ok ==> old(rt).valid(r->Ok_0.id()),
            r is Ok ==> r->Ok_0.id() == subscript(*old(rt), self.id(), key.id())->Ok_0
                && Runtime::count_set(*old(rt), *final(rt), r->Ok_0.id(), inc_count(old(rt).refcnt(r->Ok_0.id()))),
            r is Err ==> r->Err_0.kind@ == subscript(*old(rt), self.id(), key.id())->Err_0
                && r->Err_0.value is None && *final(rt) == *old(rt),
            Runtime::values_kept(*old(rt), *final(rt)),
    {
        let found = match &rt.objects[key.ptr].value {
            PyValue::Str(k) => lookup_text(rt, self.ptr, k),
            _ => lookup_other(rt, self.ptr, key.ptr),
        };
        match found {
            Ok(id) => {
                rt.incref(id);
                Ok(PyObjectRef { ptr: id })
            },
            Err(e) => Err(e),
        }
    }

    /// `obj[key] = value` on a dict (with a `str` key) or a list (with an index,
    /// from the end when negative). The container takes its own reference to
    /// `value` and releases the one it replaces.
    pub fn set_item(&self, rt: &mut Runtime, key: &PyObjectRef, value: &PyObjectRef) -> (r: Result<(), PyError>)
        requires
            old(rt).wf(),
            old(rt).valid(self.id()),
            old(rt).valid(key.id()),
            old(rt).valid(value.id()),
        ensures
            final(rt).wf(),
            r is Ok <==> store_error(*old(rt), self.id(), key.id()) is None,
            r is Err ==> r->Err_0.kind@ == store_error(*old(rt), self.id(), key.id())->0 && *final(rt) == *old(rt),
            r is Ok ==> final(rt).objects@.len() == old(rt).objects@.len()
                && Runtime::same_state(*old(rt), *final(rt))
                && forall|i: int| 0 <= i < old(rt).objects@.len() && i != self.id() ==> #[trigger] final(rt).value(i) == old(rt).value(i),
            r is Ok && old(rt).value(self.id()) is Dict ==> ({
                let k = old(rt).value(key.id())->Str_0@;
                &&& crate::runtime::dict_view(final(rt).entries(self.id())) == crate::runtime::dict_set(
                    crate::runtime::dict_view(old(rt).entries(self.id())),
                    k,
                    value.id() as usize,
                )
                &&& final(rt).counts() == crate::dict::counts_after_store(
                    old(rt).counts(),
                    value.id(),
                    dict_get(old(rt).entries(self.id()), k),
                )
            }),
            r is Ok && old(rt).value(self.id()) is List ==> ({
                let items = old(rt).value(self.id())->List_0@;
                let j = list_slot(items.len() as int, old(rt).value(key.id()));
                &&& final(rt).value(self.id()) is List
                &&& final(rt).value(self.id())->List_0@ == items.update(j, value.id() as usize)
                &&& final(rt).counts() == crate::dict::counts_after_store(
                    old(rt).counts(),
                    value.id(),
                    if items[j] == NULL {
                        None
                    } else {
                        Some(items[j])
                    },
                )
            }),
    {
        let index: Option<i128> = match &rt.objects[key.ptr].value {
            PyValue::Int(n) => Some(*n),
            PyValue::Bool(b) => Some(if *b { 1 } else { 0 }),
            _ => None,
        };
        let len: Option<usize> = match &rt.objects[self.ptr].value {
            PyValue::List(items) => Some(items.len()),
            _ => None,
        };
        let is_dict = match &rt.objects[self.ptr].value {
            PyValue::Dict(_) => true,
            _ => false,
        };
        if is_dict {
            let k = match &rt.objects[key.ptr].value {
                PyValue::Str(s) => s.clone(),
                _ => {
                    return Err(PyError::new("TypeError", "dict keys must be str"));
                },
            };
            let d = crate::dict::PyDict::wrap(self.ptr);
            d.store_text(rt, k, value);
            return Ok(());
        }
        match len {
            Some(len) => match index {
                Some(n) => {
                    let j = if n < 0 { n + len as i128 } else { n };
                    if 0 <= j && j < len as i128 {
                        let v = value.ptr;
                        proof {
                            value.lemma_id_range();
                        }
                        rt.incref(v);
                        let ghost mid = *rt;
                        assert(mid.counts() =~= crate::runtime::bump(old(rt).counts(), v as int));
                        let replaced = rt.list_replace(self.ptr, j as usize, v);
                        if replaced != NULL {
                            let ghost before = *rt;
                            rt.decref(replaced);
                            assert(rt.counts() =~= crate::runtime::drop_one(before.counts(), replaced as int));
                        }
                        Ok(())
                    } else {
                        Err(PyError::new("IndexError", "list assignment index out of range"))
                    }
                },
                None => Err(PyError::new("TypeError", "list indices must be integers")),
            },
            None => Err(PyError::new("TypeError", "object does not support item assignment")),
        }
    }

    /// `obj[key]` for a `str` key, as a new reference to the item.
    pub fn get_item_str(&self, rt: &mut Runtime, key: &str) -> (r: Result<PyObjectRef, PyError>)
        requires
            old(rt).wf(),
            old(rt).valid(self.id()),
        ensures
            final(rt).wf(),
            r is Ok <==> subscript_text(*old(rt), self.id(), key@) is Ok,
            r is Ok ==> old(rt).valid(r->Ok_0.id()),
            r is Ok ==> r->Ok_0.id() == subscript_text(*old(rt), self.id(), key@)->Ok_0
                && Runtime::count_set(*old(rt), *final(rt), r->Ok_0.id(), inc_count(old(rt).refcnt(r->Ok_0.id()))),
            r is Err ==> r->Err_0.kind@ == subscript_text(*old(rt), self.id(), key@)->Err_0
                && r->Err_0.value is None && *final(rt) == *old(rt),
            Runtime::values_kept(*old(rt), *final(rt)),
    {
        let k = String::from_str(key);
        match lookup_text(rt, self.ptr, &k) {
            Ok(id) => {
                rt.incref(id);
                Ok(PyObjectRef { ptr: id })
            },
            Err(e) => Err(e),
        }
    }

    /// `len(obj)` for a list or tuple.
    pub fn sequence_len(&self, rt: &Runtime) -> (r: Result<usize, PyError>)
        requires
            rt.wf(),
            rt.valid(self.id()),
        ensures
            r is Ok <==> seq_len(rt.value(self.id())) is Ok,
            r is Ok ==> r->Ok_0 == seq_len(rt.value(self.id()))->Ok_0,
            r is Ok ==> r->Ok_0 as int == seq_ids(rt.value(self.id())).len(),
            r is Err ==> r->Err_0.kind@ == seq_len(rt.value(self.id()))->Err_0 && r->Err_0.value is None,
    {
        match &rt.objects[self.ptr].value {
            PyValue::List(items) => Ok(items.len()),
            PyValue::Tuple(items) => Ok(items.len()),
            _ => Err(PyError::new("TypeError", "object is not a sequence")),
        }
    }

    /// Item `index` of a list or tuple, as a new reference.
    pub fn sequence_item(&self, rt: &mut Runtime, index: usize) -> (r: Result<PyObjectRef, PyError>)
        requires
            old(rt).wf(),
            old(rt).valid(self.id()),
        ensures
            final(rt).wf(),
            ({
                let v = old(rt).value(self.id());
                let want = if v is List || v is Tuple {
                    seq_item(if v is List { v->List_0@ } else { v->Tuple_0@ }, PyValue::Int(index as i128))
                } else {
                    Err("TypeError"@)
                };
                &&& r is Ok <==> want is Ok
                &&& r is Ok ==> old(rt).valid(r->Ok_0.id())
                &&& r is Ok ==> r->Ok_0.id() == want->Ok_0 && Runtime::count_set(
                    *old(rt),
                    *final(rt),
                    r->Ok_0.id(),
                    inc_count(old(rt).refcnt(r->Ok_0.id())),
                )
                &&& r is Err ==> r->Err_0.kind@ == want->Err_0 && r->Err_0.value is None
                    && *final(rt) == *old(rt)
            }),
            Runtime::values_kept(*old(rt), *final(rt)),
    {
        let found = match &rt.objects[self.ptr].value {
            PyValue::List(items) => item_at(items, index as i128),
            PyValue::Tuple(items) => item_at(items, index as i128),
            _ => Err(PyError::new("TypeError", "object does not support indexing")),
        };
        match found {
            Ok(id) => {
                proof {
                    assert(value_ok(old(rt).value(self.id()), old(rt).objects@.len() as int));
                }
                rt.incref(id);
                Ok(PyObjectRef { ptr: id })
            },
            Err(e) => Err(e),
        }
    }
}

/// Looks `key` up in the dict `obj`; the id is a borrowed reference.
fn lookup_text(rt: &Runtime, obj: usize, key: &String) -> (r: Result<usize, PyError>)
    requires
        rt.wf(),
        rt.valid(obj as int),
    ensures
        r is Ok <==> subscript_text(*rt, obj as int, key@) is Ok,
        r is Ok ==> r->Ok_0 == subscript_text(*rt, obj as int, key@)->Ok_0 && rt.valid(r->Ok_0 as int),
        r is Err ==> r->Err_0.kind@ == subscript_text(*rt, obj as int, key@)->Err_0 && r->Err_0.value is None,
{
    match &rt.objects[obj].value {
        PyValue::Dict(entries) => {
            assert(value_ok(rt.value(obj as int), rt.objects@.len() as int));
            match crate::runtime::find_key_index(entries, key) {
                Some(i) => {
                    proof {
                        lemma_dict_get(entries@, key@, i as int);
                    }
                    Ok(entries[i].value)
                },
                None => {
                    proof { crate::runtime::lemma_dict_get_none(entries@, key@); }
                    Err(PyError::new("KeyError", "key not found"))
                },
            }
        },
        _ => Err(PyError::new("TypeError", "object is not subscriptable by str")),
    }
}

/// `obj[key]` for a key that is not a `str`; the id is a borrowed reference.
fn lookup_other(rt: &Runtime, obj: usize, key: usize) -> (r: Result<usize, PyError>)
    requires
        rt.wf(),
        rt.valid(obj as int),
        rt.valid(key as int),
        !(rt.value(key as int) is Str),
    ensures
        r is Ok <==> subscript(*rt, obj as int, key as int) is Ok,
        r is Ok ==> r->Ok_0 == subscript(*rt, obj as int, key as int)->Ok_0 && rt.valid(r->Ok_0 as int),
        r is Err ==> r->Err_0.kind@ == subscript(*rt, obj as int, key as int)->Err_0 && r->Err_0.value is None,
{
    let index: Option<i128> = match &rt.objects[key].value {
        PyValue::Int(n) => Some(*n),
        PyValue::Bool(b) => Some(if *b { 1 } else { 0 }),
        _ => None,
    };
    assert(value_ok(rt.value(obj as int), rt.objects@.len() as int));
    match &rt.objects[obj].value {
        PyValue::Dict(_) => match &rt.objects[key].value {
            PyValue::List(_) => Err(PyError::new("TypeError", "unhashable type")),
            PyValue::Dict(_) => Err(PyError::new("TypeError", "unhashable type")),
            _ => Err(PyError::new("KeyError", "key not found")),
        },
        PyValue::List(items) => match index {
            Some(n) => item_at(items, n),
            None => Err(PyError::new("TypeError", "indices must be integers")),
        },
        PyValue::Tuple(items) => match index {
            Some(n) => item_at(items, n),
            None => Err(PyError::new("TypeError", "indices must be integers")),
        },
        _ => Err(PyError::new("TypeError", "object is not subscriptable")),
    }
}

/// Item `n` of a list or tuple's ids, from the end for a negative `n`.
fn item_at(items: &Vec<usize>, n: i128) -> (r: Result<usize, PyError>)
    ensures
        r is Ok <==> seq_item(items@, PyValue::Int(n)) is Ok,
        r is Ok ==> r->Ok_0 == seq_item(items@, PyValue::Int(n))->Ok_0 && r->Ok_0 != NULL
            && exists|j: int| 0 <= j < items@.len() && items@[j] == r->Ok_0,
        r is Err ==> r->Err_0.kind@ == seq_item(items@, PyValue::Int(n))->Err_0 && r->Err_0.value is None,
{
    let len = items.len() as i128;
    let j = if n < 0 { n + len } else { n };
    if 0 <= j && j < len && items[j as usize] != NULL {
        Ok(items[j as usize])
    } else {
        Err(PyError::new("IndexError", "index out of range"))
    }
}

/// What a handle operation does to one object's references.
pub enum HandleOp {
    /// `from_owned` on a pointer whose reference was handed out.
    Claim,
    /// `from_borrowed`.
    Borrow,
    /// `clone_ref` of a live handle.
    CloneRef,
    /// `release` of a live handle.
    Release,
    /// `into_ptr` of a live handle: its reference is handed out.
    IntoPtr,
}

/// The count after `op`, as the handle functions' contracts give it.
pub open spec fn count_after_op(c: u64, op: HandleOp) -> u64 {
    match op {
        HandleOp::Borrow => inc_count(c),
        HandleOp::CloneRef => inc_count(c),
        HandleOp::Release => dec_count(c),
        _ => c,
    }
}

/// (live handles, references handed out as raw pointers) after `op`.
pub open spec fn holders_after_op(live: int, raw: int, op: HandleOp) -> (int, int) {
    match op {
        HandleOp::Claim => (live + 1, raw - 1),
        HandleOp::Borrow => (live + 1, raw),
        HandleOp::CloneRef => (live + 1, raw),
        HandleOp::Release => (live - 1, raw),
        HandleOp::IntoPtr => (live - 1, raw + 1),
    }
}

/// `op` can be done: claiming needs a handed-out reference, and cloning, releasing
/// and handing out need a live handle.
pub open spec fn op_allowed(live: int, raw: int, op: HandleOp) -> bool {
    match op {
        HandleOp::Claim => raw > 0,
        HandleOp::Borrow => true,
        _ => live > 0,
    }
}

/// The count, live handles and handed-out references after a sequence of
/// operations, or `None` where one of them is not allowed.
pub open spec fn replay(c: u64, live: int, raw: int, ops: Seq<HandleOp>) -> Option<(u64, int, int)>
    decreases ops.len(),
{
    if ops.len() == 0 {
        Some((c, live, raw))
    } else if !op_allowed(live, raw, ops[0]) {
        None
    } else {
        let (l1, r1) = holders_after_op(live, raw, ops[0]);
        replay(count_after_op(c, ops[0]), l1, r1, ops.skip(1))
    }
}

/// Whatever sequence of `from_owned`, `from_borrowed`, `clone_ref`, `release` and
/// `into_ptr` is applied to an object, its count stays the number of live handles
/// plus the references handed out as raw pointers; with none handed out, it is
/// exactly the number of live handles.
pub proof fn lemma_refcount_tracks_handles(c: u64, live: int, raw: int, ops: Seq<HandleOp>)
    requires
        live >= 0,
        raw >= 0,
        c == live + raw,
        c + ops.len() < IMMORTAL,
        replay(c, live, raw, ops) is Some,
    ensures
        ({
            let (c2, live2, raw2) = replay(c, live, raw, ops)->0;
            &&& c2 == live2 + raw2
            &&& live2 >= 0
            &&& raw2 >= 0
            &&& raw2 == 0 ==> c2 == live2
        }),
    decreases ops.len(),
{
    if ops.len() > 0 {
        let (l1, r1) = holders_after_op(live, raw, ops[0]);
        lemma_refcount_tracks_handles(count_after_op(c, ops[0]), l1, r1, ops.skip(1));
    }
}

/// The counts once the pending exception, if any, has been discarded.
pub open spec fn cleared_counts(rt: Runtime) -> Seq<u64> {
    match rt.pending {
        Some(p) => if p.value != NULL {
            crate::runtime::drop_one(rt.counts(), p.value as int)
        } else {
            rt.counts()
        },
        None => rt.counts(),
    }
}

/// The value and count views have one entry per object slot.
pub proof fn lemma_values_len(rt: Runtime)
    ensures
        rt.values().len() == rt.objects@.len(),
        rt.counts().len() == rt.objects@.len(),
        forall|i: int| 0 <= i < rt.objects@.len() ==> #[trigger] rt.values()[i] == rt.value(i),
        forall|i: int| 0 <= i < rt.objects@.len() ==> #[trigger] rt.counts()[i] == rt.refcnt(i),
{
}

impl PyError {
    /// Takes the interpreter's pending exception and clears it. With none pending
    /// the result is an `UnknownError` with an empty message. The `value` of a
    /// `StopIteration` moves into the result; any other exception value is released.
    pub fn fetch(rt: &mut Runtime) -> (r: PyError)
        requires
            old(rt).wf(),
        ensures
            final(rt).wf(),
            final(rt).pending is None,
            final(rt).values() == old(rt).values(),
            final(rt).initialized == old(rt).initialized,
            final(rt).globals == old(rt).globals,
            final(rt).builtins == old(rt).builtins,
            Runtime::values_kept(*old(rt), *final(rt)),
            old(rt).pending is None ==> r.kind@ == "UnknownError"@ && r.message@.len() == 0
                && r.value is None && final(rt).counts() == old(rt).counts(),
            old(rt).pending is Some ==> ({
                let p = old(rt).pending->0;
                &&& r.kind@ == p.kind@
                &&& r.message@ == p.message@
                &&& if p.kind@ == "StopIteration"@ && p.value != NULL {
                    &&& r.value is Some
                    &&& r.value->0.id() == p.value
                    &&& final(rt).counts() == old(rt).counts()
                } else {
                    &&& r.value is None
                    &&& p.value == NULL ==> final(rt).counts() == old(rt).counts()
                    &&& p.value != NULL ==> final(rt).counts() == crate::runtime::drop_one(
                        old(rt).counts(),
                        p.value as int,
                    )
                }
            }),
    {
        let mut taken: Option<PendingError> = None;
        proof {
            lemma_values_len(*old(rt));
        }
        std::mem::swap(&mut taken, &mut rt.pending);
        match taken {
            None => {
                assert(rt.counts() =~= old(rt).counts());
                assert(rt.values() =~= old(rt).values());
                proof {
                    reveal_strlit("");
                }
                PyError::new("UnknownError", "")
            },
            Some(p) => {
                let stop = String::from_str("StopIteration");
                if p.kind == stop && p.value != NULL {
                    assert(rt.counts() =~= old(rt).counts());
                    assert(rt.values() =~= old(rt).values());
                    PyError { kind: p.kind, message: p.message, value: Some(PyObjectRef { ptr: p.value }) }
                } else {
                    if p.value != NULL {
                        rt.decref(p.value);
                        assert(rt.counts() =~= crate::runtime::drop_one(old(rt).counts(), p.value as int));
                    } else {
                        assert(rt.counts() =~= old(rt).counts());
                    }
                    assert(rt.values() =~= old(rt).values());
                    PyError { kind: p.kind, message: p.message, value: None }
                }
            },
        }
    }

    /// Makes this the interpreter's pending exception (the exception it replaces is
    /// released). Its value's reference moves into the interpreter.
    pub fn restore(self, rt: &mut Runtime)
        requires
            old(rt).wf(),
            self.value is Some ==> old(rt).valid(self.value->0.id()),
        ensures
            final(rt).wf(),
            final(rt).pending is Some,
            final(rt).pending->0.kind@ == self.kind@,
            final(rt).pending->0.message@ == self.message@,
            final(rt).pending->0.value == match self.value {
                Some(v) => v.id(),
                None => 0int,
            },
            final(rt).values() == old(rt).values(),
            final(rt).initialized == old(rt).initialized,
            final(rt).globals == old(rt).globals,
            final(rt).builtins == old(rt).builtins,
    {
        let mut previous: Option<PendingError> = None;
        std::mem::swap(&mut previous, &mut rt.pending);
        match previous {
            Some(p) => {
                if p.value != NULL {
                    rt.decref(p.value);
                }
            },
            None => {},
        }
        let value = match self.value {
            Some(v) => v.into_ptr(),
            None => NULL,
        };
        rt.pending = Some(PendingError { kind: self.kind, message: self.message, value });
        assert(rt.values() =~= old(rt).values());
    }

    /// Discards the pending exception, if any.
    pub fn clear(rt: &mut Runtime)
        requires
            old(rt).wf(),
        ensures
            final(rt).wf(),
            final(rt).pending is None,
            final(rt).values() == old(rt).values(),
            final(rt).initialized == old(rt).initialized,
            final(rt).globals == old(rt).globals,
            final(rt).builtins == old(rt).builtins,
            final(rt).counts() == cleared_counts(*old(rt)),
            Runtime::values_kept(*old(rt), *final(rt)),
    {
        let e = PyError::fetch(rt);
        match e.value {
            Some(v) => {
                let ghost mid = *rt;
                v.release(rt);
                assert(rt.values() =~= old(rt).values());
                assert(rt.counts() =~= crate::runtime::drop_one(mid.counts(), v.id()));
            },
            None => {},
        }
    }

    /// An error made here, without touching the interpreter.
    pub fn new(kind: &str, message: &str) -> (r: PyError)
        ensures
            r.kind@ == kind@,
            r.message@ == message@,
            r.value is None,
    {
        PyError { kind: String::from_str(kind), message: String::from_str(message), value: None }
    }

    /// `"{kind}: {message}"`, or the kind alone when the message is empty.
    pub fn to_rust_err_string(&self) -> (r: String)
        ensures
            r@ == err_text(self.kind@, self.message@),
    {
        if self.message.unicode_len() == 0 {
            self.kind.clone()
        } else {
            let mut s = self.kind.clone();
            s.append(": ");
            s.append(self.message.as_str());
            s
        }
    }
}

} // verus!
