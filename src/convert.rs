use vstd::prelude::*;
use crate::runtime::{Runtime, PyValue, NONE_ID, TRUE_ID, dict_view, dict_get, lemma_dict_get, keys_distinct};
use crate::dict::PyDict;
use crate::object::{PyObjectRef, PyError, truthy, i64_of, u64_of, seq_len, seq_ids};
use crate::tuple::{new_list, all_valid};

verus! {

/// A failure while building a foreign object from a native value.
pub struct TryIntoVmValueError(pub String);

/// `id` names a live object among `vals`.
pub open spec fn live(vals: Seq<PyValue>, id: int) -> bool {
    1 <= id < vals.len()
}

/// `b` keeps every value of `a` at the same id.
pub open spec fn extends(a: Seq<PyValue>, b: Seq<PyValue>) -> bool {
    a.len() <= b.len() && forall|i: int| 0 <= i < a.len() ==> #[trigger] b[i] == a[i]
}

/// `b` grew from `a`: every old object keeps its value and nothing is pending
/// that was not before.
pub open spec fn built_on(a: Runtime, b: Runtime) -> bool {
    &&& Runtime::values_kept(a, b)
    &&& b.pending == a.pending
}

/// Conversion of a native value into a foreign object.
pub trait TryIntoPyObject: Sized {
    /// The object `id` among `vals` is this value's foreign form.
    spec fn represented_by(&self, vals: Seq<PyValue>, id: int) -> bool;

    /// The value's foreign form is `None`.
    spec fn converts_to_none(&self) -> bool;

    proof fn lemma_kept(&self, a: Seq<PyValue>, b: Seq<PyValue>, id: int)
        requires
            self.represented_by(a, id),
            extends(a, b),
        ensures
            self.represented_by(b, id),
    ;

    proof fn lemma_none_form(&self, vals: Seq<PyValue>, id: int)
        requires
            self.represented_by(vals, id),
            vals.len() > NONE_ID,
            vals[NONE_ID as int] is NoneValue,
        ensures
            live(vals, id),
            (id == NONE_ID) == self.converts_to_none(),
    ;

    fn try_into_py_object(self, rt: &mut Runtime) -> (r: Result<PyObjectRef, TryIntoVmValueError>)
        requires
            old(rt).wf(),
        ensures
            final(rt).wf(),
            built_on(*old(rt), *final(rt)),
            r is Ok,
            self.represented_by(final(rt).values(), r->Ok_0.id()),
    ;
}

/// Conversion of a foreign object into a native value.
pub trait TryFromPyObject: Sized {
    /// The kind of the error that reading object `id` gives, if any.
    spec fn read_error(vals: Seq<PyValue>, id: int) -> Option<Seq<char>>;

    /// A successful read of object `id` gives `v`.
    spec fn reads_as(vals: Seq<PyValue>, id: int, v: Self) -> bool;

    fn try_from_py_object(obj: PyObjectRef, rt: &mut Runtime) -> (r: Result<Self, PyError>)
        requires
            old(rt).wf(),
            old(rt).valid(obj.id()),
        ensures
            final(rt).wf(),
            final(rt).values() == old(rt).values(),
            Runtime::same_state(*old(rt), *final(rt)),
            r is Ok <==> Self::read_error(old(rt).values(), obj.id()) is None,
            r is Ok ==> Self::reads_as(old(rt).values(), obj.id(), r->Ok_0),
            r is Err ==> r->Err_0.kind@ == Self::read_error(old(rt).values(), obj.id())->0,
    ;
}

/// Values that come back unchanged from their foreign form.
pub trait PyRoundTrip: TryIntoPyObject + TryFromPyObject {
    /// The value is one that survives the trip (no lost bits, no `Some` of a
    /// value whose form is `None`).
    spec fn round_trips(&self) -> bool;

    proof fn lemma_round_trip(&self, vals: Seq<PyValue>, id: int)
        requires
            self.represented_by(vals, id),
            self.round_trips(),
            vals.len() > TRUE_ID,
            vals[NONE_ID as int] is NoneValue,
        ensures
            Self::read_error(vals, id) is None,
            Self::reads_as(vals, id, *self),
    ;
}

/// Reading back the foreign form of a value that survives the trip gives that
/// value again.
pub proof fn lemma_conversion_round_trip<T: PyRoundTrip>(rt: Runtime, x: T, id: int)
    requires
        rt.wf(),
        x.represented_by(rt.values(), id),
        x.round_trips(),
    ensures
        T::read_error(rt.values(), id) is None,
        T::reads_as(rt.values(), id, x),
{
    crate::object::lemma_values_len(rt);
    x.lemma_round_trip(rt.values(), id);
}

proof fn lemma_release_keeps(a: Runtime, b: Runtime, id: int)
    requires
        Runtime::count_set(a, b, id, crate::runtime::dec_count(a.refcnt(id))),
        0 <= id < a.objects@.len(),
    ensures
        b.values() == a.values(),
        Runtime::same_state(a, b),
{
    assert(b.values() =~= a.values());
}

fn release_into(obj: PyObjectRef, rt: &mut Runtime)
    requires
        old(rt).wf(),
        old(rt).valid(obj.id()),
    ensures
        final(rt).wf(),
        final(rt).values() == old(rt).values(),
        Runtime::same_state(*old(rt), *final(rt)),
{
    let ghost a = *rt;
    obj.release(rt);
    proof {
        lemma_release_keeps(a, *rt, obj.id());
    }
}

// ---- unit ----

impl TryIntoPyObject for () {
    open spec fn represented_by(&self, vals: Seq<PyValue>, id: int) -> bool {
        id == NONE_ID && live(vals, id)
    }

    open spec fn converts_to_none(&self) -> bool {
        true
    }

    proof fn lemma_kept(&self, a: Seq<PyValue>, b: Seq<PyValue>, id: int) {
    }

    proof fn lemma_none_form(&self, vals: Seq<PyValue>, id: int) {
    }

    fn try_into_py_object(self, rt: &mut Runtime) -> (r: Result<PyObjectRef, TryIntoVmValueError>) {
        Ok(PyObjectRef::none())
    }
}

impl TryFromPyObject for () {
    open spec fn read_error(vals: Seq<PyValue>, id: int) -> Option<Seq<char>> {
        None
    }

    open spec fn reads_as(vals: Seq<PyValue>, id: int, v: Self) -> bool {
        true
    }

    fn try_from_py_object(obj: PyObjectRef, rt: &mut Runtime) -> (r: Result<Self, PyError>) {
        release_into(obj, rt);
        Ok(())
    }
}

impl PyRoundTrip for () {
    open spec fn round_trips(&self) -> bool {
        true
    }

    proof fn lemma_round_trip(&self, vals: Seq<PyValue>, id: int) {
    }
}

// ---- bool ----

impl TryIntoPyObject for bool {
    open spec fn represented_by(&self, vals: Seq<PyValue>, id: int) -> bool {
        live(vals, id) && vals[id] == PyValue::Bool(*self)
    }

    open spec fn converts_to_none(&self) -> bool {
        false
    }

    proof fn lemma_kept(&self, a: Seq<PyValue>, b: Seq<PyValue>, id: int) {
    }

    proof fn lemma_none_form(&self, vals: Seq<PyValue>, id: int) {
    }

    fn try_into_py_object(self, rt: &mut Runtime) -> (r: Result<PyObjectRef, TryIntoVmValueError>) {
        Ok(PyObjectRef::from_bool(self))
    }
}

impl TryFromPyObject for bool {
    open spec fn read_error(vals: Seq<PyValue>, id: int) -> Option<Seq<char>> {
        None
    }

    open spec fn reads_as(vals: Seq<PyValue>, id: int, v: Self) -> bool {
        v == truthy(vals[id])
    }

    fn try_from_py_object(obj: PyObjectRef, rt: &mut Runtime) -> (r: Result<Self, PyError>) {
        proof {
            crate::object::lemma_values_len(*rt);
        }
        let b = obj.extract_bool(rt);
        release_into(obj, rt);
        Ok(b)
    }
}

impl PyRoundTrip for bool {
    open spec fn round_trips(&self) -> bool {
        true
    }

    proof fn lemma_round_trip(&self, vals: Seq<PyValue>, id: int) {
    }
}

// ---- String ----

impl TryIntoPyObject for String {
    open spec fn represented_by(&self, vals: Seq<PyValue>, id: int) -> bool {
        live(vals, id) && vals[id] is Str && vals[id]->Str_0@ == self@
    }

    open spec fn converts_to_none(&self) -> bool {
        false
    }

    proof fn lemma_kept(&self, a: Seq<PyValue>, b: Seq<PyValue>, id: int) {
    }

    proof fn lemma_none_form(&self, vals: Seq<PyValue>, id: int) {
    }

    fn try_into_py_object(self, rt: &mut Runtime) -> (r: Result<PyObjectRef, TryIntoVmValueError>) {
        let r = PyObjectRef::from_str(rt, self.as_str());
        match r {
            Ok(h) => Ok(h),
            Err(e) => Err(TryIntoVmValueError(e.to_rust_err_string())),
        }
    }
}

impl TryFromPyObject for String {
    open spec fn read_error(vals: Seq<PyValue>, id: int) -> Option<Seq<char>> {
        if vals[id] is Str {
            None
        } else {
            Some("TypeError"@)
        }
    }

    open spec fn reads_as(vals: Seq<PyValue>, id: int, v: Self) -> bool {
        v@ == vals[id]->Str_0@
    }

    fn try_from_py_object(obj: PyObjectRef, rt: &mut Runtime) -> (r: Result<Self, PyError>) {
        proof {
            crate::object::lemma_values_len(*rt);
        }
        let s = obj.extract_str(rt);
        release_into(obj, rt);
        s
    }
}

impl PyRoundTrip for String {
    open spec fn round_trips(&self) -> bool {
        true
    }

    proof fn lemma_round_trip(&self, vals: Seq<PyValue>, id: int) {
    }
}

impl<'a> TryIntoPyObject for &'a str {
    open spec fn represented_by(&self, vals: Seq<PyValue>, id: int) -> bool {
        live(vals, id) && vals[id] is Str && vals[id]->Str_0@ == self@
    }

    open spec fn converts_to_none(&self) -> bool {
        false
    }

    proof fn lemma_kept(&self, a: Seq<PyValue>, b: Seq<PyValue>, id: int) {
    }

    proof fn lemma_none_form(&self, vals: Seq<PyValue>, id: int) {
    }

    fn try_into_py_object(self, rt: &mut Runtime) -> (r: Result<PyObjectRef, TryIntoVmValueError>) {
        let r = PyObjectRef::from_str(rt, self);
        match r {
            Ok(h) => Ok(h),
            Err(e) => Err(TryIntoVmValueError(e.to_rust_err_string())),
        }
    }
}

// ---- i8 ----

impl TryIntoPyObject for i8 {
    open spec fn represented_by(&self, vals: Seq<PyValue>, id: int) -> bool {
        live(vals, id) && vals[id] == PyValue::Int((*self as i64) as i128)
    }

    open spec fn converts_to_none(&self) -> bool {
        false
    }

    proof fn lemma_kept(&self, a: Seq<PyValue>, b: Seq<PyValue>, id: int) {
    }

    proof fn lemma_none_form(&self, vals: Seq<PyValue>, id: int) {
    }

    fn try_into_py_object(self, rt: &mut Runtime) -> (r: Result<PyObjectRef, TryIntoVmValueError>) {
        let r = PyObjectRef::from_i64(rt, self as i64);
        match r {
            Ok(h) => Ok(h),
            Err(e) => Err(TryIntoVmValueError(e.to_rust_err_string())),
        }
    }
}

impl TryFromPyObject for i8 {
    open spec fn read_error(vals: Seq<PyValue>, id: int) -> Option<Seq<char>> {
        match i64_of(vals[id]) {
            Ok(_) => None,
            Err(kind) => Some(kind),
        }
    }

    open spec fn reads_as(vals: Seq<PyValue>, id: int, v: Self) -> bool {
        v == i64_of(vals[id])->Ok_0 as i8
    }

    fn try_from_py_object(obj: PyObjectRef, rt: &mut Runtime) -> (r: Result<Self, PyError>) {
        proof {
            crate::object::lemma_values_len(*rt);
        }
        let v = obj.extract_i64(rt);
        release_into(obj, rt);
        match v {
            Ok(n) => Ok(n as i8),
            Err(e) => Err(e),
        }
    }
}

impl PyRoundTrip for i8 {
    open spec fn round_trips(&self) -> bool {
        true
    }

    proof fn lemma_round_trip(&self, vals: Seq<PyValue>, id: int) {
    }
}

// ---- i16 ----

impl TryIntoPyObject for i16 {
    open spec fn represented_by(&self, vals: Seq<PyValue>, id: int) -> bool {
        live(vals, id) && vals[id] == PyValue::Int((*self as i64) as i128)
    }

    open spec fn converts_to_none(&self) -> bool {
        false
    }

    proof fn lemma_kept(&self, a: Seq<PyValue>, b: Seq<PyValue>, id: int) {
    }

    proof fn lemma_none_form(&self, vals: Seq<PyValue>, id: int) {
    }

    fn try_into_py_object(self, rt: &mut Runtime) -> (r: Result<PyObjectRef, TryIntoVmValueError>) {
        let r = PyObjectRef::from_i64(rt, self as i64);
        match r {
            Ok(h) => Ok(h),
            Err(e) => Err(TryIntoVmValueError(e.to_rust_err_string())),
        }
    }
}

impl TryFromPyObject for i16 {
    open spec fn read_error(vals: Seq<PyValue>, id: int) -> Option<Seq<char>> {
        match i64_of(vals[id]) {
            Ok(_) => None,
            Err(kind) => Some(kind),
        }
    }

    open spec fn reads_as(vals: Seq<PyValue>, id: int, v: Self) -> bool {
        v == i64_of(vals[id])->Ok_0 as i16
    }

    fn try_from_py_object(obj: PyObjectRef, rt: &mut Runtime) -> (r: Result<Self, PyError>) {
        proof {
            crate::object::lemma_values_len(*rt);
        }
        let v = obj.extract_i64(rt);
        release_into(obj, rt);
        match v {
            Ok(n) => Ok(n as i16),
            Err(e) => Err(e),
        }
    }
}

impl PyRoundTrip for i16 {
    open spec fn round_trips(&self) -> bool {
        true
    }

    proof fn lemma_round_trip(&self, vals: Seq<PyValue>, id: int) {
    }
}

// ---- i32 ----

impl TryIntoPyObject for i32 {
    open spec fn represented_by(&self, vals: Seq<PyValue>, id: int) -> bool {
        live(vals, id) && vals[id] == PyValue::Int((*self as i64) as i128)
    }

    open spec fn converts_to_none(&self) -> bool {
        false
    }

    proof fn lemma_kept(&self, a: Seq<PyValue>, b: Seq<PyValue>, id: int) {
    }

    proof fn lemma_none_form(&self, vals: Seq<PyValue>, id: int) {
    }

    fn try_into_py_object(self, rt: &mut Runtime) -> (r: Result<PyObjectRef, TryIntoVmValueError>) {
        let r = PyObjectRef::from_i64(rt, self as i64);
        match r {
            Ok(h) => Ok(h),
            Err(e) => Err(TryIntoVmValueError(e.to_rust_err_string())),
        }
    }
}

impl TryFromPyObject for i32 {
    open spec fn read_error(vals: Seq<PyValue>, id: int) -> Option<Seq<char>> {
        match i64_of(vals[id]) {
            Ok(_) => None,
            Err(kind) => Some(kind),
        }
    }

    open spec fn reads_as(vals: Seq<PyValue>, id: int, v: Self) -> bool {
        v == i64_of(vals[id])->Ok_0 as i32
    }

    fn try_from_py_object(obj: PyObjectRef, rt: &mut Runtime) -> (r: Result<Self, PyError>) {
        proof {
            crate::object::lemma_values_len(*rt);
        }
        let v = obj.extract_i64(rt);
        release_into(obj, rt);
        match v {
            Ok(n) => Ok(n as i32),
            Err(e) => Err(e),
        }
    }
}

impl PyRoundTrip for i32 {
    open spec fn round_trips(&self) -> bool {
        true
    }

    proof fn lemma_round_trip(&self, vals: Seq<PyValue>, id: int) {
    }
}

// ---- i64 ----

impl TryIntoPyObject for i64 {
    open spec fn represented_by(&self, vals: Seq<PyValue>, id: int) -> bool {
        live(vals, id) && vals[id] == PyValue::Int((*self as i64) as i128)
    }

    open spec fn converts_to_none(&self) -> bool {
        false
    }

    proof fn lemma_kept(&self, a: Seq<PyValue>, b: Seq<PyValue>, id: int) {
    }

    proof fn lemma_none_form(&self, vals: Seq<PyValue>, id: int) {
    }

    fn try_into_py_object(self, rt: &mut Runtime) -> (r: Result<PyObjectRef, TryIntoVmValueError>) {
        let r = PyObjectRef::from_i64(rt, self as i64);
        match r {
            Ok(h) => Ok(h),
            Err(e) => Err(TryIntoVmValueError(e.to_rust_err_string())),
        }
    }
}

impl TryFromPyObject for i64 {
    open spec fn read_error(vals: Seq<PyValue>, id: int) -> Option<Seq<char>> {
        match i64_of(vals[id]) {
            Ok(_) => None,
            Err(kind) => Some(kind),
        }
    }

    open spec fn reads_as(vals: Seq<PyValue>, id: int, v: Self) -> bool {
        v == i64_of(vals[id])->Ok_0 as i64
    }

    fn try_from_py_object(obj: PyObjectRef, rt: &mut Runtime) -> (r: Result<Self, PyError>) {
        proof {
            crate::object::lemma_values_len(*rt);
        }
        let v = obj.extract_i64(rt);
        release_into(obj, rt);
        match v {
            Ok(n) => Ok(n as i64),
            Err(e) => Err(e),
        }
    }
}

impl PyRoundTrip for i64 {
    open spec fn round_trips(&self) -> bool {
        true
    }

    proof fn lemma_round_trip(&self, vals: Seq<PyValue>, id: int) {
    }
}

// ---- i128 ----

impl TryIntoPyObject for i128 {
    open spec fn represented_by(&self, vals: Seq<PyValue>, id: int) -> bool {
        live(vals, id) && vals[id] == PyValue::Int((*self as i64) as i128)
    }

    open spec fn converts_to_none(&self) -> bool {
        false
    }

    proof fn lemma_kept(&self, a: Seq<PyValue>, b: Seq<PyValue>, id: int) {
    }

    proof fn lemma_none_form(&self, vals: Seq<PyValue>, id: int) {
    }

    fn try_into_py_object(self, rt: &mut Runtime) -> (r: Result<PyObjectRef, TryIntoVmValueError>) {
        let r = PyObjectRef::from_i64(rt, self as i64);
        match r {
            Ok(h) => Ok(h),
            Err(e) => Err(TryIntoVmValueError(e.to_rust_err_string())),
        }
    }
}

impl TryFromPyObject for i128 {
    open spec fn read_error(vals: Seq<PyValue>, id: int) -> Option<Seq<char>> {
        match i64_of(vals[id]) {
            Ok(_) => None,
            Err(kind) => Some(kind),
        }
    }

    open spec fn reads_as(vals: Seq<PyValue>, id: int, v: Self) -> bool {
        v == i64_of(vals[id])->Ok_0 as i128
    }

    fn try_from_py_object(obj: PyObjectRef, rt: &mut Runtime) -> (r: Result<Self, PyError>) {
        proof {
            crate::object::lemma_values_len(*rt);
        }
        let v = obj.extract_i64(rt);
        release_into(obj, rt);
        match v {
            Ok(n) => Ok(n as i128),
            Err(e) => Err(e),
        }
    }
}

impl PyRoundTrip for i128 {
    open spec fn round_trips(&self) -> bool {
        i64::MIN <= *self <= i64::MAX
    }

    proof fn lemma_round_trip(&self, vals: Seq<PyValue>, id: int) {
    }
}

// ---- u8 ----

impl TryIntoPyObject for u8 {
    open spec fn represented_by(&self, vals: Seq<PyValue>, id: int) -> bool {
        live(vals, id) && vals[id] == PyValue::Int((*self as u64) as i128)
    }

    open spec fn converts_to_none(&self) -> bool {
        false
    }

    proof fn lemma_kept(&self, a: Seq<PyValue>, b: Seq<PyValue>, id: int) {
    }

    proof fn lemma_none_form(&self, vals: Seq<PyValue>, id: int) {
    }

    fn try_into_py_object(self, rt: &mut Runtime) -> (r: Result<PyObjectRef, TryIntoVmValueError>) {
        let r = PyObjectRef::from_u64(rt, self as u64);
        match r {
            Ok(h) => Ok(h),
            Err(e) => Err(TryIntoVmValueError(e.to_rust_err_string())),
        }
    }
}

impl TryFromPyObject for u8 {
    open spec fn read_error(vals: Seq<PyValue>, id: int) -> Option<Seq<char>> {
        match u64_of(vals[id]) {
            Ok(_) => None,
            Err(kind) => Some(kind),
        }
    }

    open spec fn reads_as(vals: Seq<PyValue>, id: int, v: Self) -> bool {
        v == u64_of(vals[id])->Ok_0 as u8
    }

    fn try_from_py_object(obj: PyObjectRef, rt: &mut Runtime) -> (r: Result<Self, PyError>) {
        proof {
            crate::object::lemma_values_len(*rt);
        }
        let v = obj.extract_u64(rt);
        release_into(obj, rt);
        match v {
            Ok(n) => Ok(n as u8),
            Err(e) => Err(e),
        }
    }
}

impl PyRoundTrip for u8 {
    open spec fn round_trips(&self) -> bool {
        true
    }

    proof fn lemma_round_trip(&self, vals: Seq<PyValue>, id: int) {
    }
}

// ---- u16 ----

impl TryIntoPyObject for u16 {
    open spec fn represented_by(&self, vals: Seq<PyValue>, id: int) -> bool {
        live(vals, id) && vals[id] == PyValue::Int((*self as u64) as i128)
    }

    open spec fn converts_to_none(&self) -> bool {
        false
    }

    proof fn lemma_kept(&self, a: Seq<PyValue>, b: Seq<PyValue>, id: int) {
    }

    proof fn lemma_none_form(&self, vals: Seq<PyValue>, id: int) {
    }

    fn try_into_py_object(self, rt: &mut Runtime) -> (r: Result<PyObjectRef, TryIntoVmValueError>) {
        let r = PyObjectRef::from_u64(rt, self as u64);
        match r {
            Ok(h) => Ok(h),
            Err(e) => Err(TryIntoVmValueError(e.to_rust_err_string())),
        }
    }
}

impl TryFromPyObject for u16 {
    open spec fn read_error(vals: Seq<PyValue>, id: int) -> Option<Seq<char>> {
        match u64_of(vals[id]) {
            Ok(_) => None,
            Err(kind) => Some(kind),
        }
    }

    open spec fn reads_as(vals: Seq<PyValue>, id: int, v: Self) -> bool {
        v == u64_of(vals[id])->Ok_0 as u16
    }

    fn try_from_py_object(obj: PyObjectRef, rt: &mut Runtime) -> (r: Result<Self, PyError>) {
        proof {
            crate::object::lemma_values_len(*rt);
        }
        let v = obj.extract_u64(rt);
        release_into(obj, rt);
        match v {
            Ok(n) => Ok(n as u16),
            Err(e) => Err(e),
        }
    }
}

impl PyRoundTrip for u16 {
    open spec fn round_trips(&self) -> bool {
        true
    }

    proof fn lemma_round_trip(&self, vals: Seq<PyValue>, id: int) {
    }
}

// ---- u32 ----

impl TryIntoPyObject for u32 {
    open spec fn represented_by(&self, vals: Seq<PyValue>, id: int) -> bool {
        live(vals, id) && vals[id] == PyValue::Int((*self as u64) as i128)
    }

    open spec fn converts_to_none(&self) -> bool {
        false
    }

    proof fn lemma_kept(&self, a: Seq<PyValue>, b: Seq<PyValue>, id: int) {
    }

    proof fn lemma_none_form(&self, vals: Seq<PyValue>, id: int) {
    }

    fn try_into_py_object(self, rt: &mut Runtime) -> (r: Result<PyObjectRef, TryIntoVmValueError>) {
        let r = PyObjectRef::from_u64(rt, self as u64);
        match r {
            Ok(h) => Ok(h),
            Err(e) => Err(TryIntoVmValueError(e.to_rust_err_string())),
        }
    }
}

impl TryFromPyObject for u32 {
    open spec fn read_error(vals: Seq<PyValue>, id: int) -> Option<Seq<char>> {
        match u64_of(vals[id]) {
            Ok(_) => None,
            Err(kind) => Some(kind),
        }
    }

    open spec fn reads_as(vals: Seq<PyValue>, id: int, v: Self) -> bool {
        v == u64_of(vals[id])->Ok_0 as u32
    }

    fn try_from_py_object(obj: PyObjectRef, rt: &mut Runtime) -> (r: Result<Self, PyError>) {
        proof {
            crate::object::lemma_values_len(*rt);
        }
        let v = obj.extract_u64(rt);
        release_into(obj, rt);
        match v {
            Ok(n) => Ok(n as u32),
            Err(e) => Err(e),
        }
    }
}

impl PyRoundTrip for u32 {
    open spec fn round_trips(&self) -> bool {
        true
    }

    proof fn lemma_round_trip(&self, vals: Seq<PyValue>, id: int) {
    }
}

// ---- u64 ----

impl TryIntoPyObject for u64 {
    open spec fn represented_by(&self, vals: Seq<PyValue>, id: int) -> bool {
        live(vals, id) && vals[id] == PyValue::Int((*self as u64) as i128)
    }

    open spec fn converts_to_none(&self) -> bool {
        false
    }

    proof fn lemma_kept(&self, a: Seq<PyValue>, b: Seq<PyValue>, id: int) {
    }

    proof fn lemma_none_form(&self, vals: Seq<PyValue>, id: int) {
    }

    fn try_into_py_object(self, rt: &mut Runtime) -> (r: Result<PyObjectRef, TryIntoVmValueError>) {
        let r = PyObjectRef::from_u64(rt, self as u64);
        match r {
            Ok(h) => Ok(h),
            Err(e) => Err(TryIntoVmValueError(e.to_rust_err_string())),
        }
    }
}

impl TryFromPyObject for u64 {
    open spec fn read_error(vals: Seq<PyValue>, id: int) -> Option<Seq<char>> {
        match u64_of(vals[id]) {
            Ok(_) => None,
            Err(kind) => Some(kind),
        }
    }

    open spec fn reads_as(vals: Seq<PyValue>, id: int, v: Self) -> bool {
        v == u64_of(vals[id])->Ok_0 as u64
    }

    fn try_from_py_object(obj: PyObjectRef, rt: &mut Runtime) -> (r: Result<Self, PyError>) {
        proof {
            crate::object::lemma_values_len(*rt);
        }
        let v = obj.extract_u64(rt);
        release_into(obj, rt);
        match v {
            Ok(n) => Ok(n as u64),
            Err(e) => Err(e),
        }
    }
}

impl PyRoundTrip for u64 {
    open spec fn round_trips(&self) -> bool {
        true
    }

    proof fn lemma_round_trip(&self, vals: Seq<PyValue>, id: int) {
    }
}

// ---- u128 ----

impl TryIntoPyObject for u128 {
    open spec fn represented_by(&self, vals: Seq<PyValue>, id: int) -> bool {
        live(vals, id) && vals[id] == PyValue::Int((*self as u64) as i128)
    }

    open spec fn converts_to_none(&self) -> bool {
        false
    }

    proof fn lemma_kept(&self, a: Seq<PyValue>, b: Seq<PyValue>, id: int) {
    }

    proof fn lemma_none_form(&self, vals: Seq<PyValue>, id: int) {
    }

    fn try_into_py_object(self, rt: &mut Runtime) -> (r: Result<PyObjectRef, TryIntoVmValueError>) {
        let r = PyObjectRef::from_u64(rt, self as u64);
        match r {
            Ok(h) => Ok(h),
            Err(e) => Err(TryIntoVmValueError(e.to_rust_err_string())),
        }
    }
}

impl TryFromPyObject for u128 {
    open spec fn read_error(vals: Seq<PyValue>, id: int) -> Option<Seq<char>> {
        match u64_of(vals[id]) {
            Ok(_) => None,
            Err(kind) => Some(kind),
        }
    }

    open spec fn reads_as(vals: Seq<PyValue>, id: int, v: Self) -> bool {
        v == u64_of(vals[id])->Ok_0 as u128
    }

    fn try_from_py_object(obj: PyObjectRef, rt: &mut Runtime) -> (r: Result<Self, PyError>) {
        proof {
            crate::object::lemma_values_len(*rt);
        }
        let v = obj.extract_u64(rt);
        release_into(obj, rt);
        match v {
            Ok(n) => Ok(n as u128),
            Err(e) => Err(e),
        }
    }
}

impl PyRoundTrip for u128 {
    open spec fn round_trips(&self) -> bool {
        *self <= u64::MAX
    }

    proof fn lemma_round_trip(&self, vals: Seq<PyValue>, id: int) {
    }
}

// ---- Option ----

impl<T: TryIntoPyObject> TryIntoPyObject for Option<T> {
    open spec fn represented_by(&self, vals: Seq<PyValue>, id: int) -> bool {
        match self {
            Some(v) => v.represented_by(vals, id),
            None => id == NONE_ID && live(vals, id),
        }
    }

    open spec fn converts_to_none(&self) -> bool {
        match self {
            Some(v) => v.converts_to_none(),
            None => true,
        }
    }

    proof fn lemma_kept(&self, a: Seq<PyValue>, b: Seq<PyValue>, id: int) {
        match self {
            Some(v) => v.lemma_kept(a, b, id),
            None => {},
        }
    }

    proof fn lemma_none_form(&self, vals: Seq<PyValue>, id: int) {
        match self {
            Some(v) => v.lemma_none_form(vals, id),
            None => {},
        }
    }

    fn try_into_py_object(self, rt: &mut Runtime) -> (r: Result<PyObjectRef, TryIntoVmValueError>) {
        match self {
            Some(v) => v.try_into_py_object(rt),
            None => {
                Ok(PyObjectRef::none())
            },
        }
    }
}

impl<T: TryFromPyObject> TryFromPyObject for Option<T> {
    open spec fn read_error(vals: Seq<PyValue>, id: int) -> Option<Seq<char>> {
        if id == NONE_ID {
            None
        } else {
            T::read_error(vals, id)
        }
    }

    open spec fn reads_as(vals: Seq<PyValue>, id: int, v: Self) -> bool {
        if id == NONE_ID {
            v is None
        } else {
            v is Some && T::reads_as(vals, id, v->0)
        }
    }

    fn try_from_py_object(obj: PyObjectRef, rt: &mut Runtime) -> (r: Result<Self, PyError>) {
        if obj.is_none() {
            release_into(obj, rt);
            Ok(None)
        } else {
            match T::try_from_py_object(obj, rt) {
                Ok(v) => Ok(Some(v)),
                Err(e) => Err(e),
            }
        }
    }
}

impl<T: PyRoundTrip> PyRoundTrip for Option<T> {
    open spec fn round_trips(&self) -> bool {
        match self {
            Some(v) => v.round_trips() && !v.converts_to_none(),
            None => true,
        }
    }

    proof fn lemma_round_trip(&self, vals: Seq<PyValue>, id: int) {
        match self {
            Some(v) => {
                v.lemma_none_form(vals, id);
                v.lemma_round_trip(vals, id);
            },
            None => {},
        }
    }
}

// ---- Vec ----

/// The error that reading the item at `id` gives, if any; an unset slot is an
/// `IndexError`.
pub open spec fn item_error<T: TryFromPyObject>(vals: Seq<PyValue>, id: usize) -> Option<Seq<char>> {
    if id == 0 {
        Some("IndexError"@)
    } else {
        T::read_error(vals, id as int)
    }
}

/// The first error among the first `n` items, if any.
pub open spec fn items_error<T: TryFromPyObject>(vals: Seq<PyValue>, items: Seq<usize>, n: int) -> Option<Seq<char>>
    decreases n,
{
    if n <= 0 {
        None
    } else if items_error::<T>(vals, items, n - 1) is Some {
        items_error::<T>(vals, items, n - 1)
    } else {
        item_error::<T>(vals, items[n - 1])
    }
}

proof fn lemma_items_error_stays<T: TryFromPyObject>(vals: Seq<PyValue>, items: Seq<usize>, k: int, n: int)
    requires
        0 <= k <= n,
        items_error::<T>(vals, items, k) is Some,
    ensures
        items_error::<T>(vals, items, n) == items_error::<T>(vals, items, k),
    decreases n - k,
{
    if k < n {
        lemma_items_error_stays::<T>(vals, items, k, n - 1);
    }
}

proof fn lemma_extends_from_kept(a: Runtime, b: Runtime)
    requires
        Runtime::values_kept(a, b),
    ensures
        extends(a.values(), b.values()),
{
    crate::object::lemma_values_len(a);
    crate::object::lemma_values_len(b);
}

proof fn lemma_built_on_trans(a: Runtime, b: Runtime, c: Runtime)
    requires
        built_on(a, b),
        built_on(b, c),
    ensures
        built_on(a, c),
{
}

impl<T: TryIntoPyObject> TryIntoPyObject for Vec<T> {
    open spec fn represented_by(&self, vals: Seq<PyValue>, id: int) -> bool {
        &&& live(vals, id)
        &&& vals[id] is List
        &&& vals[id]->List_0@.len() == self@.len()
        &&& forall|i: int| 0 <= i < self@.len() ==> #[trigger] self@[i].represented_by(vals, vals[id]->List_0@[i] as int)
    }

    open spec fn converts_to_none(&self) -> bool {
        false
    }

    proof fn lemma_kept(&self, a: Seq<PyValue>, b: Seq<PyValue>, id: int) {
        let items = a[id]->List_0@;
        assert forall|i: int| 0 <= i < self@.len() implies #[trigger] self@[i].represented_by(b, b[id]->List_0@[i] as int) by {
            self@[i].lemma_kept(a, b, items[i] as int);
        }
    }

    proof fn lemma_none_form(&self, vals: Seq<PyValue>, id: int) {
    }

    fn try_into_py_object(self, rt: &mut Runtime) -> (r: Result<PyObjectRef, TryIntoVmValueError>) {
        let ghost orig = self@;
        let ghost rt0 = *rt;
        let n = self.len();
        let mut rest = self;
        let mut rev: Vec<T> = Vec::new();
        while rest.len() > 0
            invariant
                n == orig.len(),
                rest@ == orig.take(n - rev@.len()),
                rev@.len() <= n,
                forall|k: int| 0 <= k < rev@.len() ==> #[trigger] rev@[k] == orig[n - 1 - k],
            decreases rest@.len(),
        {
            let x = rest.pop().unwrap();
            rev.push(x);
            assert(rest@ =~= orig.take(n - rev@.len()));
        }
        proof {
            crate::object::lemma_values_len(*rt);
        }
        let mut handles: Vec<PyObjectRef> = Vec::new();
        while rev.len() > 0
            invariant
                n == orig.len(),
                rev@.len() + handles@.len() == n,
                forall|k: int| 0 <= k < rev@.len() ==> #[trigger] rev@[k] == orig[n - 1 - k],
                rt.wf(),
                built_on(rt0, *rt),
                all_valid(*rt, handles@),
                forall|k: int| 0 <= k < handles@.len() ==> #[trigger] orig[k].represented_by(rt.values(), handles@[k].id()),
            decreases rev@.len(),
        {
            let x = rev.pop().unwrap();
            let ghost k = handles@.len() as int;
            assert(x == orig[k]);
            let ghost before = *rt;
            let h = match x.try_into_py_object(rt) {
                Ok(h) => h,
                Err(e) => {
                    return Err(e);
                },
            };
            proof {
                lemma_built_on_trans(rt0, before, *rt);
                lemma_extends_from_kept(before, *rt);
                crate::object::lemma_values_len(*rt);
                assert forall|j: int| 0 <= j < handles@.len() implies #[trigger] orig[j].represented_by(rt.values(), handles@[j].id()) by {
                    orig[j].lemma_kept(before.values(), rt.values(), handles@[j].id());
                }
                orig[k].lemma_none_form(rt.values(), h.id());
            }
            handles.push(h);
        }
        let ghost hs = handles@;
        let ghost before = *rt;
        let list = new_list(rt, handles);
        proof {
            lemma_extends_from_kept(before, *rt);
            crate::object::lemma_values_len(*rt);
            crate::object::lemma_values_len(before);
            lemma_built_on_trans(rt0, before, *rt);
            assert forall|i: int| 0 <= i < orig.len() implies #[trigger] orig[i].represented_by(rt.values(), rt.values()[list.id()]->List_0@[i] as int) by {
                hs[i].lemma_id_range();
                assert(rt.values()[list.id()]->List_0@[i] == hs[i].id() as usize);
                orig[i].lemma_kept(before.values(), rt.values(), hs[i].id());
            }
        }
        Ok(list)
    }
}

impl<T: TryFromPyObject> TryFromPyObject for Vec<T> {
    open spec fn read_error(vals: Seq<PyValue>, id: int) -> Option<Seq<char>> {
        match seq_len(vals[id]) {
            Err(kind) => Some(kind),
            Ok(_) => items_error::<T>(vals, seq_ids(vals[id]), seq_ids(vals[id]).len() as int),
        }
    }

    open spec fn reads_as(vals: Seq<PyValue>, id: int, v: Self) -> bool {
        &&& v@.len() == seq_ids(vals[id]).len()
        &&& forall|i: int| 0 <= i < v@.len() ==> T::reads_as(vals, seq_ids(vals[id])[i] as int, #[trigger] v@[i])
    }

    fn try_from_py_object(obj: PyObjectRef, rt: &mut Runtime) -> (r: Result<Self, PyError>) {
        let ghost rt0 = *rt;
        let ghost vals = rt.values();
        proof {
            crate::object::lemma_values_len(*rt);
        }
        let n = match obj.sequence_len(rt) {
            Ok(n) => n,
            Err(e) => {
                release_into(obj, rt);
                return Err(e);
            },
        };
        let ghost items = seq_ids(vals[obj.id()]);
        let mut out: Vec<T> = Vec::new();
        let mut i: usize = 0;
        while i < n
            invariant
                n == items.len(),
                items == seq_ids(vals[obj.id()]),
                vals[obj.id()] is List || vals[obj.id()] is Tuple,
                i <= n,
                rt.wf(),
                rt.values() == vals,
                Runtime::same_state(*old(rt), *rt),
                rt.valid(obj.id()),
                vals == old(rt).values(),
                items_error::<T>(vals, items, i as int) is None,
                out@.len() == i,
                forall|k: int| 0 <= k < i ==> T::reads_as(vals, items[k] as int, #[trigger] out@[k]),
            decreases n - i,
        {
            proof {
                crate::object::lemma_values_len(*rt);
            }
            let ghost before = *rt;
            let item = match obj.sequence_item(rt, i) {
                Ok(item) => item,
                Err(e) => {
                    proof {
                        lemma_items_error_stays::<T>(vals, items, i + 1, n as int);
                    }
                    release_into(obj, rt);
                    return Err(e);
                },
            };
            proof {
                lemma_release_keeps_bump(before, *rt, item.id());
                crate::object::lemma_values_len(*rt);
            }
            match T::try_from_py_object(item, rt) {
                Ok(v) => {
                    out.push(v);
                },
                Err(e) => {
                    proof {
                        lemma_items_error_stays::<T>(vals, items, i + 1, n as int);
                    }
                    release_into(obj, rt);
                    return Err(e);
                },
            }
            i = i + 1;
        }
        release_into(obj, rt);
        Ok(out)
    }
}

proof fn lemma_release_keeps_bump(a: Runtime, b: Runtime, id: int)
    requires
        Runtime::count_set(a, b, id, crate::runtime::inc_count(a.refcnt(id))),
        0 <= id < a.objects@.len(),
    ensures
        b.values() == a.values(),
        Runtime::same_state(a, b),
{
    assert(b.values() =~= a.values());
}

impl<T: PyRoundTrip> PyRoundTrip for Vec<T> {
    open spec fn round_trips(&self) -> bool {
        forall|i: int| 0 <= i < self@.len() ==> #[trigger] self@[i].round_trips()
    }

    proof fn lemma_round_trip(&self, vals: Seq<PyValue>, id: int) {
        let items = vals[id]->List_0@;
        assert(seq_ids(vals[id]) == items);
        assert forall|i: int| 0 <= i < self@.len() implies T::reads_as(vals, items[i] as int, #[trigger] self@[i]) by {
            assert(self@[i].represented_by(vals, items[i] as int));
            self@[i].lemma_round_trip(vals, items[i] as int);
        }
        assert forall|k: int| 0 <= k <= items.len() implies items_error::<T>(vals, items, k) is None by {
            lemma_items_ok::<T>(vals, items, k, *self);
        }
    }
}

proof fn lemma_items_ok<T: PyRoundTrip>(vals: Seq<PyValue>, items: Seq<usize>, k: int, v: Vec<T>)
    requires
        0 <= k <= items.len(),
        items.len() == v@.len(),
        forall|i: int| 0 <= i < v@.len() ==> #[trigger] v@[i].represented_by(vals, items[i] as int),
        forall|i: int| 0 <= i < v@.len() ==> #[trigger] v@[i].round_trips(),
        vals.len() > TRUE_ID,
        vals[NONE_ID as int] is NoneValue,
    ensures
        items_error::<T>(vals, items, k) is None,
    decreases k,
{
    if k > 0 {
        lemma_items_ok::<T>(vals, items, k - 1, v);
        assert(v@[k - 1].represented_by(vals, items[k - 1] as int));
        assert(v@[k - 1].round_trips());
        v@[k - 1].lemma_round_trip(vals, items[k - 1] as int);
        v@[k - 1].lemma_none_form(vals, items[k - 1] as int);
    }
}

// ---- bytes ----

/// A byte string; its foreign form is an immutable `bytes` object holding a copy.
pub struct Bytes(pub Vec<u8>);

impl TryIntoPyObject for Bytes {
    open spec fn represented_by(&self, vals: Seq<PyValue>, id: int) -> bool {
        live(vals, id) && vals[id] is Bytes && vals[id]->Bytes_0@ == self.0@
    }

    open spec fn converts_to_none(&self) -> bool {
        false
    }

    proof fn lemma_kept(&self, a: Seq<PyValue>, b: Seq<PyValue>, id: int) {
    }

    proof fn lemma_none_form(&self, vals: Seq<PyValue>, id: int) {
    }

    fn try_into_py_object(self, rt: &mut Runtime) -> (r: Result<PyObjectRef, TryIntoVmValueError>) {
        let r = PyObjectRef::from_bytes(rt, self.0.as_slice());
        match r {
            Ok(h) => Ok(h),
            Err(e) => Err(TryIntoVmValueError(e.to_rust_err_string())),
        }
    }
}

impl TryFromPyObject for Bytes {
    open spec fn read_error(vals: Seq<PyValue>, id: int) -> Option<Seq<char>> {
        if vals[id] is Bytes {
            None
        } else {
            Some("TypeError"@)
        }
    }

    open spec fn reads_as(vals: Seq<PyValue>, id: int, v: Self) -> bool {
        v.0@ == vals[id]->Bytes_0@
    }

    fn try_from_py_object(obj: PyObjectRef, rt: &mut Runtime) -> (r: Result<Self, PyError>) {
        proof {
            crate::object::lemma_values_len(*rt);
        }
        let b = obj.extract_bytes(rt);
        release_into(obj, rt);
        match b {
            Ok(v) => Ok(Bytes(v)),
            Err(e) => Err(e),
        }
    }
}

impl PyRoundTrip for Bytes {
    open spec fn round_trips(&self) -> bool {
        true
    }

    proof fn lemma_round_trip(&self, vals: Seq<PyValue>, id: int) {
    }
}

// ---- positional records ----

/// The ids of the first two items of a tuple value, when it has them.
pub open spec fn pair_ids(v: PyValue) -> Option<(usize, usize)> {
    match v {
        PyValue::Tuple(items) => if items@.len() >= 2 && items@[0] != 0 && items@[1] != 0 {
            Some((items@[0], items@[1]))
        } else {
            None
        },
        _ => None,
    }
}

impl<A: TryIntoPyObject, B: TryIntoPyObject> TryIntoPyObject for (A, B) {
    open spec fn represented_by(&self, vals: Seq<PyValue>, id: int) -> bool {
        &&& live(vals, id)
        &&& vals[id] is Tuple
        &&& vals[id]->Tuple_0@.len() == 2
        &&& self.0.represented_by(vals, vals[id]->Tuple_0@[0] as int)
        &&& self.1.represented_by(vals, vals[id]->Tuple_0@[1] as int)
    }

    open spec fn converts_to_none(&self) -> bool {
        false
    }

    proof fn lemma_kept(&self, a: Seq<PyValue>, b: Seq<PyValue>, id: int) {
        let items = a[id]->Tuple_0@;
        self.0.lemma_kept(a, b, items[0] as int);
        self.1.lemma_kept(a, b, items[1] as int);
    }

    proof fn lemma_none_form(&self, vals: Seq<PyValue>, id: int) {
    }

    fn try_into_py_object(self, rt: &mut Runtime) -> (r: Result<PyObjectRef, TryIntoVmValueError>) {
        let ghost rt0 = *rt;
        let (first, second) = self;
        let h0 = match first.try_into_py_object(rt) {
            Ok(h) => h,
            Err(e) => {
                return Err(e);
            },
        };
        let ghost rt1 = *rt;
        let h1 = match second.try_into_py_object(rt) {
            Ok(h) => h,
            Err(e) => {
                return Err(e);
            },
        };
        let ghost rt2 = *rt;
        proof {
            lemma_built_on_trans(rt0, rt1, rt2);
            lemma_extends_from_kept(rt1, rt2);
            crate::object::lemma_values_len(rt2);
            first.lemma_kept(rt1.values(), rt2.values(), h0.id());
            first.lemma_none_form(rt2.values(), h0.id());
            second.lemma_none_form(rt2.values(), h1.id());
        }
        let ghost i0 = h0.id();
        let ghost i1 = h1.id();
        let items = vec![h0, h1];
        assert(items@.len() == 2 && items@[0].id() == i0 && items@[1].id() == i1);
        let ghost iv = items@;
        let t = crate::tuple::PyTuple::new(rt, items).unwrap();
        let obj = t.into_object();
        proof {
            h0.lemma_id_range();
            h1.lemma_id_range();
            assert(crate::tuple::ids_of(iv)[0] == i0 as usize);
            assert(crate::tuple::ids_of(iv)[1] == i1 as usize);
            crate::object::lemma_values_len(*rt);
            assert(rt.values()[obj.id()] == rt.value(obj.id()));
            lemma_extends_from_kept(rt2, *rt);
            crate::object::lemma_values_len(*rt);
            lemma_built_on_trans(rt0, rt2, *rt);
            first.lemma_kept(rt2.values(), rt.values(), i0);
            second.lemma_kept(rt2.values(), rt.values(), i1);
            assert(rt.values()[obj.id()]->Tuple_0@[0] == i0 as usize);
            assert(rt.values()[obj.id()]->Tuple_0@[1] == i1 as usize);
        }
        Ok(obj)
    }
}

impl<A: TryFromPyObject, B: TryFromPyObject> TryFromPyObject for (A, B) {
    open spec fn read_error(vals: Seq<PyValue>, id: int) -> Option<Seq<char>> {
        match pair_ids(vals[id]) {
            None => Some("IndexError"@),
            Some((i0, i1)) => if A::read_error(vals, i0 as int) is Some {
                A::read_error(vals, i0 as int)
            } else {
                B::read_error(vals, i1 as int)
            },
        }
    }

    open spec fn reads_as(vals: Seq<PyValue>, id: int, v: Self) -> bool {
        let (i0, i1) = pair_ids(vals[id])->0;
        A::reads_as(vals, i0 as int, v.0) && B::reads_as(vals, i1 as int, v.1)
    }

    fn try_from_py_object(obj: PyObjectRef, rt: &mut Runtime) -> (r: Result<Self, PyError>) {
        let ghost vals = rt.values();
        proof {
            crate::object::lemma_values_len(*rt);
        }
        let ids = match &rt.objects[obj.as_ptr()].value {
            PyValue::Tuple(items) => if items.len() >= 2 && items[0] != 0 && items[1] != 0 {
                assert(crate::runtime::value_ok(rt.value(obj.id()), rt.objects@.len() as int));
                Some((items[0], items[1]))
            } else {
                None
            },
            _ => None,
        };
        let (i0, i1) = match ids {
            Some(p) => p,
            None => {
                release_into(obj, rt);
                return Err(PyError::new("IndexError", "tuple index out of range"));
            },
        };
        let ghost before = *rt;
        let f0 = PyObjectRef::from_borrowed(rt, i0).unwrap();
        proof {
            lemma_release_keeps_bump(before, *rt, i0 as int);
        }
        let ghost before1 = *rt;
        let f1 = PyObjectRef::from_borrowed(rt, i1).unwrap();
        proof {
            lemma_release_keeps_bump(before1, *rt, i1 as int);
            crate::object::lemma_values_len(*rt);
        }
        let a = match A::try_from_py_object(f0, rt) {
            Ok(a) => a,
            Err(e) => {
                release_into(f1, rt);
                release_into(obj, rt);
                return Err(e);
            },
        };
        proof {
            crate::object::lemma_values_len(*rt);
        }
        let b = match B::try_from_py_object(f1, rt) {
            Ok(b) => b,
            Err(e) => {
                release_into(obj, rt);
                return Err(e);
            },
        };
        release_into(obj, rt);
        Ok((a, b))
    }
}

impl<A: PyRoundTrip, B: PyRoundTrip> PyRoundTrip for (A, B) {
    open spec fn round_trips(&self) -> bool {
        self.0.round_trips() && self.1.round_trips()
    }

    proof fn lemma_round_trip(&self, vals: Seq<PyValue>, id: int) {
        let items = vals[id]->Tuple_0@;
        self.0.lemma_none_form(vals, items[0] as int);
        self.1.lemma_none_form(vals, items[1] as int);
        self.0.lemma_round_trip(vals, items[0] as int);
        self.1.lemma_round_trip(vals, items[1] as int);
    }
}

// ---- the Ok/Err outcome ----

/// The dict `id` holds exactly one entry, under `key`; its value id.
pub open spec fn single_entry(vals: Seq<PyValue>, id: int, key: Seq<char>) -> Option<usize> {
    if vals[id] is Dict && dict_view(vals[id]->Dict_0@).len() == 1 && dict_view(vals[id]->Dict_0@)[0].0 == key {
        Some(dict_view(vals[id]->Dict_0@)[0].1)
    } else {
        None
    }
}

/// A new dict holding `key` -> the foreign form of `v`.
fn keyed_into<T: TryIntoPyObject>(rt: &mut Runtime, key: &str, v: T) -> (r: PyObjectRef)
    requires
        old(rt).wf(),
    ensures
        final(rt).wf(),
        built_on(*old(rt), *final(rt)),
        live(final(rt).values(), r.id()),
        single_entry(final(rt).values(), r.id(), key@) is Some,
        v.represented_by(final(rt).values(), single_entry(final(rt).values(), r.id(), key@)->0 as int),
{
    let ghost rt0 = *rt;
    let h = match v.try_into_py_object(rt) {
        Ok(h) => h,
        Err(_) => PyObjectRef::none(),
    };
    let ghost rt1 = *rt;
    proof {
        crate::object::lemma_values_len(rt1);
        v.lemma_none_form(rt1.values(), h.id());
    }
    let r = match variant_into_py_object(rt, key, h) {
        Ok(r) => r,
        Err(_) => PyObjectRef::none(),
    };
    proof {
        crate::object::lemma_values_len(*rt);
        lemma_extends_from_kept(rt1, *rt);
        v.lemma_kept(rt1.values(), rt.values(), h.id());
        assert(rt.values()[r.id()] == rt.value(r.id()));
        h.lemma_id_range();
        assert(single_entry(rt.values(), r.id(), key@) == Some(h.id() as usize));
        lemma_built_on_trans(rt0, rt1, *rt);
    }
    r
}

impl<T: TryIntoPyObject, K: TryIntoPyObject> TryIntoPyObject for Result<T, K> {
    open spec fn represented_by(&self, vals: Seq<PyValue>, id: int) -> bool {
        &&& live(vals, id)
        &&& match self {
            Ok(v) => single_entry(vals, id, "Ok"@) is Some && v.represented_by(
                vals,
                single_entry(vals, id, "Ok"@)->0 as int,
            ),
            Err(e) => single_entry(vals, id, "Err"@) is Some && e.represented_by(
                vals,
                single_entry(vals, id, "Err"@)->0 as int,
            ),
        }
    }

    open spec fn converts_to_none(&self) -> bool {
        false
    }

    proof fn lemma_kept(&self, a: Seq<PyValue>, b: Seq<PyValue>, id: int) {
        match self {
            Ok(v) => v.lemma_kept(a, b, single_entry(a, id, "Ok"@)->0 as int),
            Err(e) => e.lemma_kept(a, b, single_entry(a, id, "Err"@)->0 as int),
        }
    }

    proof fn lemma_none_form(&self, vals: Seq<PyValue>, id: int) {
    }

    fn try_into_py_object(self, rt: &mut Runtime) -> (r: Result<PyObjectRef, TryIntoVmValueError>) {
        match self {
            Ok(v) => Ok(keyed_into(rt, "Ok", v)),
            Err(e) => Ok(keyed_into(rt, "Err", e)),
        }
    }
}

impl TryFromPyObject for Result<(), String> {
    open spec fn read_error(vals: Seq<PyValue>, id: int) -> Option<Seq<char>> {
        match dict_lookup(vals, id, "Err"@) {
            Some(e) => <String as TryFromPyObject>::read_error(vals, e as int),
            None => match dict_lookup(vals, id, "Ok"@) {
                Some(_) => None,
                None => Some("TypeError"@),
            },
        }
    }

    open spec fn reads_as(vals: Seq<PyValue>, id: int, v: Self) -> bool {
        match dict_lookup(vals, id, "Err"@) {
            Some(e) => v is Err && <String as TryFromPyObject>::reads_as(vals, e as int, v->Err_0),
            None => v is Ok,
        }
    }

    fn try_from_py_object(obj: PyObjectRef, rt: &mut Runtime) -> (r: Result<Self, PyError>) {
        proof {
            crate::object::lemma_values_len(*rt);
        }
        let ghost before = *rt;
        match obj.get_item_str(rt, "Err") {
            Ok(item) => {
                proof {
                    lemma_release_keeps_bump(before, *rt, item.id());
                    crate::object::lemma_values_len(*rt);
                }
                let s = String::try_from_py_object(item, rt);
                release_into(obj, rt);
                return match s {
                    Ok(s) => Ok(Err(s)),
                    Err(e) => Err(e),
                };
            },
            Err(_) => {},
        }
        let ghost before = *rt;
        match obj.get_item_str(rt, "Ok") {
            Ok(item) => {
                proof {
                    lemma_release_keeps_bump(before, *rt, item.id());
                    crate::object::lemma_values_len(*rt);
                }
                release_into(item, rt);
                release_into(obj, rt);
                return Ok(Ok(()));
            },
            Err(_) => {},
        }
        let mut message = String::from_str("expected Result but received ");
        let kind = obj.kind_name(rt);
        message.append(kind.as_str());
        release_into(obj, rt);
        Err(PyError { kind: String::from_str("TypeError"), message, value: None })
    }
}

impl PyRoundTrip for Result<(), String> {
    open spec fn round_trips(&self) -> bool {
        true
    }

    proof fn lemma_round_trip(&self, vals: Seq<PyValue>, id: int) {
        reveal_strlit("Ok");
        reveal_strlit("Err");
        let entries = vals[id]->Dict_0@;
        assert(dict_view(entries).len() == entries.len());
        assert(dict_view(entries)[0] == (entries[0].key@, entries[0].value));
        assert(keys_distinct(entries));
        match self {
            Ok(_) => {
                assert(entries[0].key@ == "Ok"@);
                assert("Ok"@.len() != "Err"@.len());
                crate::runtime::lemma_dict_get_none(entries, "Err"@);
                lemma_dict_get(entries, "Ok"@, 0);
            },
            Err(_) => {
                lemma_dict_get(entries, "Err"@, 0);
            },
        }
    }
}

// ---- entry points ----

/// The foreign form of `value`.
pub fn try_into_vm_value<T: TryIntoPyObject>(value: T, rt: &mut Runtime) -> (r: Result<PyObjectRef, TryIntoVmValueError>)
    requires
        old(rt).wf(),
    ensures
        final(rt).wf(),
        built_on(*old(rt), *final(rt)),
        r is Ok,
        value.represented_by(final(rt).values(), r->Ok_0.id()),
{
    value.try_into_py_object(rt)
}

/// The native value that `obj` stands for; the reference `obj` is released.
pub fn try_from_vm_value<T: TryFromPyObject>(obj: PyObjectRef, rt: &mut Runtime) -> (r: Result<T, PyError>)
    requires
        old(rt).wf(),
        old(rt).valid(obj.id()),
    ensures
        final(rt).wf(),
        final(rt).values() == old(rt).values(),
        Runtime::same_state(*old(rt), *final(rt)),
        r is Ok <==> T::read_error(old(rt).values(), obj.id()) is None,
        r is Ok ==> T::reads_as(old(rt).values(), obj.id(), r->Ok_0),
        r is Err ==> r->Err_0.kind@ == T::read_error(old(rt).values(), obj.id())->0,
{
    T::try_from_py_object(obj, rt)
}

/// The foreign form of a list of values: a `list` object.
pub fn try_into_vm_value_generic_array<T: TryIntoPyObject>(items: Vec<T>, rt: &mut Runtime) -> (r: Result<PyObjectRef, TryIntoVmValueError>)
    requires
        old(rt).wf(),
    ensures
        final(rt).wf(),
        built_on(*old(rt), *final(rt)),
        r is Ok,
        items.represented_by(final(rt).values(), r->Ok_0.id()),
{
    items.try_into_py_object(rt)
}

/// The list of native values that a list or tuple object stands for.
pub fn try_from_vm_value_generic_array<T: TryFromPyObject>(obj: PyObjectRef, rt: &mut Runtime) -> (r: Result<Vec<T>, PyError>)
    requires
        old(rt).wf(),
        old(rt).valid(obj.id()),
    ensures
        final(rt).wf(),
        final(rt).values() == old(rt).values(),
        Runtime::same_state(*old(rt), *final(rt)),
        r is Ok <==> Vec::<T>::read_error(old(rt).values(), obj.id()) is None,
        r is Ok ==> Vec::<T>::reads_as(old(rt).values(), obj.id(), r->Ok_0),
        r is Err ==> r->Err_0.kind@ == Vec::<T>::read_error(old(rt).values(), obj.id())->0,
{
    Vec::<T>::try_from_py_object(obj, rt)
}

// ---- tagged unions ----

/// The value id under `key` when `obj` is a dict that has that key.
pub open spec fn dict_lookup(vals: Seq<PyValue>, obj: int, key: Seq<char>) -> Option<usize> {
    if vals[obj] is Dict {
        dict_get(vals[obj]->Dict_0@, key)
    } else {
        None
    }
}

/// The position of the first of `names`, from `i` on, that `obj` has as a key.
pub open spec fn first_variant(vals: Seq<PyValue>, obj: int, names: Seq<Seq<char>>, i: int) -> Option<int>
    decreases names.len() - i,
{
    if i < 0 || i >= names.len() {
        None
    } else if dict_lookup(vals, obj, names[i]) is Some {
        Some(i)
    } else {
        first_variant(vals, obj, names, i + 1)
    }
}

pub open spec fn names_view(names: Seq<String>) -> Seq<Seq<char>> {
    names.map_values(|s: String| s@)
}

/// The foreign form of a variant: a new dict with the single entry
/// `name` -> `payload`. The payload's reference moves into the dict.
pub fn variant_into_py_object(rt: &mut Runtime, name: &str, payload: PyObjectRef) -> (r: Result<PyObjectRef, TryIntoVmValueError>)
    requires
        old(rt).wf(),
        old(rt).valid(payload.id()),
    ensures
        final(rt).wf(),
        r is Ok,
        r->Ok_0.id() == old(rt).objects@.len(),
        final(rt).is_dict(r->Ok_0.id()),
        dict_view(final(rt).entries(r->Ok_0.id())) == seq![(name@, payload.id() as usize)],
        Runtime::values_kept(*old(rt), *final(rt)),
        final(rt).pending == old(rt).pending,
{
    let dict = PyDict::new(rt).unwrap();
    let ghost empty = *rt;
    proof {
        payload.lemma_id_range();
        assert(dict_view(empty.entries(dict.id())) =~= Seq::<(Seq<char>, usize)>::empty());
        assert(!(exists|i: int| 0 <= i < 0 && #[trigger] dict_view(empty.entries(dict.id()))[i].0 == name@));
    }
    let _ = dict.set_item_str(rt, name, &payload);
    assert(dict.view_in(*rt) =~= seq![(name@, payload.id() as usize)]);
    let ghost set = *rt;
    payload.release(rt);
    proof {
        assert(rt.value(dict.id()) == set.value(dict.id()));
    }
    Ok(dict.into_object())
}

/// Reads a variant from its foreign form: the position of the first of `names`,
/// in the order given, that `obj` has as a key, with a new reference to the
/// payload stored there. An object with none of the keys is a `TypeError`.
pub fn variant_from_py_object(rt: &mut Runtime, obj: &PyObjectRef, names: &Vec<String>) -> (r: Result<(usize, PyObjectRef), PyError>)
    requires
        old(rt).wf(),
        old(rt).valid(obj.id()),
    ensures
        final(rt).wf(),
        final(rt).values() == old(rt).values(),
        Runtime::same_state(*old(rt), *final(rt)),
        ({
            let first = first_variant(old(rt).values(), obj.id(), names_view(names@), 0);
            &&& r is Ok <==> first is Some
            &&& r is Ok ==> r->Ok_0.0 == first->0 && r->Ok_0.1.id() == dict_lookup(
                old(rt).values(),
                obj.id(),
                names@[first->0]@,
            )->0
            &&& r is Err ==> r->Err_0.kind@ == "TypeError"@
        }),
{
    let ghost vals = old(rt).values();
    let ghost nv = names_view(names@);
    proof {
        crate::object::lemma_values_len(*rt);
    }
    let mut i: usize = 0;
    while i < names.len()
        invariant
            i <= names@.len(),
            nv == names_view(names@),
            rt.wf(),
            rt.values() == vals,
            vals == old(rt).values(),
            Runtime::same_state(*old(rt), *rt),
            rt.valid(obj.id()),
            first_variant(vals, obj.id(), nv, 0) == first_variant(vals, obj.id(), nv, i as int),
        decreases names@.len() - i,
    {
        proof {
            crate::object::lemma_values_len(*rt);
        }
        let ghost before = *rt;
        match obj.get_item_str(rt, names[i].as_str()) {
            Ok(item) => {
                proof {
                    lemma_release_keeps_bump(before, *rt, item.id());
                    assert(dict_lookup(vals, obj.id(), nv[i as int]) is Some);
                }
                return Ok((i, item));
            },
            Err(_) => {
                proof {
                    assert(dict_lookup(vals, obj.id(), nv[i as int]) is None);
                }
            },
        }
        i = i + 1;
    }
    Err(PyError::new("TypeError", "Enum variant does not exist"))
}

/// Of two variant keys that both stand in a dict, the one declared first wins.
pub proof fn lemma_variant_declaration_order(vals: Seq<PyValue>, obj: int, names: Seq<Seq<char>>, i: int, j: int)
    requires
        0 <= i < j < names.len(),
        dict_lookup(vals, obj, names[i]) is Some,
        dict_lookup(vals, obj, names[j]) is Some,
    ensures
        first_variant(vals, obj, names, 0) is Some,
        first_variant(vals, obj, names, 0)->0 <= i,
        first_variant(vals, obj, names, 0) != Some(j),
{
    lemma_first_variant_upto(vals, obj, names, 0, i);
}

proof fn lemma_first_variant_upto(vals: Seq<PyValue>, obj: int, names: Seq<Seq<char>>, k: int, i: int)
    requires
        0 <= k <= i < names.len(),
        dict_lookup(vals, obj, names[i]) is Some,
    ensures
        first_variant(vals, obj, names, k) is Some,
        k <= first_variant(vals, obj, names, k)->0 <= i,
    decreases i - k,
{
    if dict_lookup(vals, obj, names[k]) is None {
        lemma_first_variant_upto(vals, obj, names, k + 1, i);
    }
}

/// The foreign form of a variant reads back as that variant, given distinct
/// variant names.
pub proof fn lemma_variant_round_trip(vals: Seq<PyValue>, obj: int, names: Seq<Seq<char>>, k: int, payload: usize)
    requires
        0 <= k < names.len(),
        forall|a: int, b: int| 0 <= a < b < names.len() ==> #[trigger] names[a] != #[trigger] names[b],
        0 <= obj < vals.len(),
        vals[obj] is Dict,
        dict_view(vals[obj]->Dict_0@) == seq![(names[k], payload)],
    ensures
        first_variant(vals, obj, names, 0) == Some(k),
        dict_lookup(vals, obj, names[k]) == Some(payload),
{
    let entries = vals[obj]->Dict_0@;
    assert(dict_view(entries).len() == entries.len());
    assert(dict_view(entries).len() == 1);
    assert(entries.len() == 1);
    assert(dict_view(entries)[0] == (entries[0].key@, entries[0].value));
    assert(keys_distinct(entries));
    lemma_dict_get(entries, names[k], 0);
    assert forall|i: int| 0 <= i < k implies dict_lookup(vals, obj, #[trigger] names[i]) is None by {
        assert(names[i] != names[k]);
        crate::runtime::lemma_dict_get_none(entries, names[i]);
    }
    lemma_first_variant_skip(vals, obj, names, 0, k);
}

proof fn lemma_first_variant_skip(vals: Seq<PyValue>, obj: int, names: Seq<Seq<char>>, m: int, k: int)
    requires
        0 <= m <= k < names.len(),
        dict_lookup(vals, obj, names[k]) is Some,
        forall|i: int| 0 <= i < k ==> dict_lookup(vals, obj, #[trigger] names[i]) is None,
    ensures
        first_variant(vals, obj, names, m) == Some(k),
    decreases k - m,
{
    if m < k {
        lemma_first_variant_skip(vals, obj, names, m + 1, k);
    }
}

/// A 128-bit integer crosses as its low 64 bits: reading back the foreign form of
/// any `u128` gives its low 64 bits, and of any `i128` its low 64 bits taken as a
/// signed value.
pub proof fn lemma_wide_int_truncation(vals: Seq<PyValue>, id: int, x: u128, y: i128)
    requires
        x.represented_by(vals, id) || y.represented_by(vals, id),
    ensures
        x.represented_by(vals, id) ==> <u128 as TryFromPyObject>::read_error(vals, id) is None
            && <u128 as TryFromPyObject>::reads_as(vals, id, (x as u64) as u128),
        y.represented_by(vals, id) ==> <i128 as TryFromPyObject>::read_error(vals, id) is None
            && <i128 as TryFromPyObject>::reads_as(vals, id, (y as i64) as i128),
{
}

} // verus!
