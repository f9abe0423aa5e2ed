use basilisk_cpython::object::{PyError, PyObjectRef};
use basilisk_cpython::runtime::{PendingError, PyValue, Runtime, IMMORTAL, NONE_ID, NULL, TRUE_ID};
use basilisk_cpython::dict::PyDict;
use basilisk_cpython::tuple::PyTuple;

#[test]
fn refcount_matches_live_handles() {
    let mut rt = Runtime::new();
    let d = PyDict::new(&mut rt).unwrap();
    let id = d.as_object().as_ptr();
    assert_eq!(rt.refcount(id), 1);
    let second = PyObjectRef::from_borrowed(&mut rt, id).unwrap();
    assert_eq!(rt.refcount(id), 2);
    let third = second.clone_ref(&mut rt);
    assert_eq!(rt.refcount(id), 3);
    second.release(&mut rt);
    assert_eq!(rt.refcount(id), 2);
    let raw = third.into_ptr();
    assert_eq!(rt.refcount(id), 2);
    let back = PyObjectRef::from_owned(raw).unwrap();
    assert_eq!(rt.refcount(id), 2);
    back.release(&mut rt);
    assert_eq!(rt.refcount(id), 1);
    d.into_object().release(&mut rt);
    assert_eq!(rt.refcount(id), 0);
}

#[test]
fn null_pointers_give_no_handle() {
    let mut rt = Runtime::new();
    assert!(PyObjectRef::from_owned(NULL).is_none());
    assert!(PyObjectRef::from_borrowed(&mut rt, NULL).is_none());
}

#[test]
fn singletons_are_immortal() {
    let mut rt = Runtime::new();
    let none = PyObjectRef::none();
    let again = none.clone_ref(&mut rt);
    assert_eq!(rt.refcount(NONE_ID), IMMORTAL);
    again.release(&mut rt);
    none.release(&mut rt);
    assert_eq!(rt.refcount(NONE_ID), IMMORTAL);
    assert_eq!(PyObjectRef::from_bool(true).as_ptr(), TRUE_ID);
}

#[test]
fn error_text_with_and_without_message() {
    assert_eq!(PyError::new("KeyError", "'x'").to_rust_err_string(), "KeyError: 'x'");
    assert_eq!(PyError::new("StopIteration", "").to_rust_err_string(), "StopIteration");
}

#[test]
fn fetch_takes_and_clears_the_pending_exception() {
    let mut rt = Runtime::new();
    let e = PyError::fetch(&mut rt);
    assert_eq!(e.kind, "UnknownError");
    assert_eq!(e.message, "");
    let v = PyObjectRef::from_i64(&mut rt, 7).unwrap();
    let vid = v.as_ptr();
    PyError { kind: "StopIteration".to_string(), message: "7".to_string(), value: Some(v) }.restore(&mut rt);
    assert!(rt.pending.is_some());
    let e = PyError::fetch(&mut rt);
    assert!(rt.pending.is_none());
    assert_eq!(e.kind, "StopIteration");
    assert_eq!(e.value.as_ref().unwrap().as_ptr(), vid);
    assert_eq!(rt.refcount(vid), 1);
}

#[test]
fn fetch_releases_the_value_of_other_exceptions() {
    let mut rt = Runtime::new();
    let v = PyObjectRef::from_i64(&mut rt, 7).unwrap();
    let vid = v.as_ptr();
    rt.pending = Some(PendingError { kind: "ValueError".to_string(), message: "bad".to_string(), value: vid });
    let e = PyError::fetch(&mut rt);
    assert_eq!(e.kind, "ValueError");
    assert_eq!(e.message, "bad");
    assert!(e.value.is_none());
    assert_eq!(rt.refcount(vid), 0);
}

#[test]
fn extraction_errors_by_kind() {
    let mut rt = Runtime::new();
    let s = PyObjectRef::from_str(&mut rt, "abc").unwrap();
    assert_eq!(s.extract_i64(&rt).unwrap_err().kind, "TypeError");
    assert_eq!(s.extract_bytes(&rt).unwrap_err().kind, "TypeError");
    let neg = PyObjectRef::from_i64(&mut rt, -1).unwrap();
    assert_eq!(neg.extract_u64(&rt).unwrap_err().kind, "OverflowError");
    let big = PyObjectRef::from_u64(&mut rt, u64::MAX).unwrap();
    assert_eq!(big.extract_i64(&rt).unwrap_err().kind, "OverflowError");
    assert_eq!(big.extract_u64(&rt).unwrap(), u64::MAX);
    assert_eq!(PyObjectRef::from_bool(true).extract_i64(&rt).unwrap(), 1);
    assert_eq!(neg.extract_str(&rt).unwrap_err().kind, "TypeError");
    assert_eq!(s.kind_name(&rt), "str");
    assert_eq!(PyObjectRef::none().kind_name(&rt), "NoneType");
}

#[test]
fn truthiness() {
    let mut rt = Runtime::new();
    let zero = PyObjectRef::from_i64(&mut rt, 0).unwrap();
    let empty = PyObjectRef::from_str(&mut rt, "").unwrap();
    let text = PyObjectRef::from_str(&mut rt, "x").unwrap();
    assert!(!zero.is_true(&rt));
    assert!(!empty.is_true(&rt));
    assert!(text.is_true(&rt));
    assert!(!PyObjectRef::none().is_true(&rt));
    let minus_zero = PyObjectRef::from_f64_bits(&mut rt, 0x8000_0000_0000_0000).unwrap();
    assert!(!minus_zero.is_true(&rt));
}

#[test]
fn subscript_of_lists_and_dicts() {
    let mut rt = Runtime::new();
    let a = PyObjectRef::from_i64(&mut rt, 10).unwrap();
    let b = PyObjectRef::from_i64(&mut rt, 20).unwrap();
    let (aid, bid) = (a.as_ptr(), b.as_ptr());
    let list = basilisk_cpython::tuple::new_list(&mut rt, vec![a, b]);
    let last = PyObjectRef::from_i64(&mut rt, -1).unwrap();
    assert_eq!(list.get_item(&mut rt, &last).unwrap().as_ptr(), bid);
    let two = PyObjectRef::from_i64(&mut rt, 2).unwrap();
    assert_eq!(list.get_item(&mut rt, &two).unwrap_err().kind, "IndexError");
    let key = PyObjectRef::from_str(&mut rt, "k").unwrap();
    assert_eq!(list.get_item(&mut rt, &key).unwrap_err().kind, "TypeError");
    assert_eq!(list.sequence_item(&mut rt, 0).unwrap().as_ptr(), aid);
    assert_eq!(list.sequence_len(&rt).unwrap(), 2);
    let d = PyDict::new(&mut rt).unwrap();
    let dobj = d.into_object();
    assert_eq!(dobj.get_item(&mut rt, &key).unwrap_err().kind, "KeyError");
    assert_eq!(dobj.get_item(&mut rt, &list).unwrap_err().kind, "TypeError");
    assert_eq!(dobj.get_item_str(&mut rt, "k").unwrap_err().kind, "KeyError");
}

#[test]
fn tuples_take_their_items() {
    let mut rt = Runtime::new();
    let a = PyObjectRef::from_str(&mut rt, "a").unwrap();
    let aid = a.as_ptr();
    let t = PyTuple::new(&mut rt, vec![a]).unwrap();
    assert_eq!(rt.refcount(aid), 1);
    assert_eq!(t.len(&rt), 1);
    assert!(!t.is_empty(&rt));
    let got = t.get(&mut rt, 0).unwrap();
    assert_eq!(got.as_ptr(), aid);
    assert_eq!(rt.refcount(aid), 2);
    assert!(t.get(&mut rt, 1).is_none());
    let e = PyTuple::empty(&mut rt).unwrap();
    assert!(e.is_empty(&rt));
    match &rt.objects[t.as_object().as_ptr()].value {
        PyValue::Tuple(items) => assert_eq!(items, &vec![aid]),
        _ => panic!("not a tuple"),
    }
}

#[test]
fn item_assignment_on_lists_and_dicts() {
    let mut rt = Runtime::new();
    let a = PyObjectRef::from_i64(&mut rt, 1).unwrap();
    let aid = a.as_ptr();
    let list = basilisk_cpython::tuple::new_list(&mut rt, vec![a]);
    let b = PyObjectRef::from_i64(&mut rt, 2).unwrap();
    let last = PyObjectRef::from_i64(&mut rt, -1).unwrap();
    list.set_item(&mut rt, &last, &b).unwrap();
    assert_eq!(rt.refcount(aid), 0);
    assert_eq!(rt.refcount(b.as_ptr()), 2);
    assert_eq!(list.sequence_item(&mut rt, 0).unwrap().as_ptr(), b.as_ptr());
    let one = PyObjectRef::from_i64(&mut rt, 1).unwrap();
    assert_eq!(list.set_item(&mut rt, &one, &b).unwrap_err().kind, "IndexError");
    let key = PyObjectRef::from_str(&mut rt, "k").unwrap();
    assert_eq!(list.set_item(&mut rt, &key, &b).unwrap_err().kind, "TypeError");
    let d = PyDict::new(&mut rt).unwrap().into_object();
    d.set_item(&mut rt, &key, &b).unwrap();
    assert_eq!(d.get_item_str(&mut rt, "k").unwrap().as_ptr(), b.as_ptr());
    assert_eq!(d.set_item(&mut rt, &one, &b).unwrap_err().kind, "TypeError");
    let t = PyTuple::empty(&mut rt).unwrap().into_object();
    assert_eq!(t.set_item(&mut rt, &one, &b).unwrap_err().kind, "TypeError");
}
